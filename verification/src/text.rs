//! Texts as sequences of characters: reading a string's characters, finding a
//! separator and cutting a text at it.

use vstd::prelude::*;

verus! {

/// The place of the first `sep` in `text`, or the length of `text` where it
/// holds none.
pub open spec fn first_index(text: Seq<char>, sep: char) -> nat
    decreases text.len(),
{
    if text.len() == 0 || text[0] == sep {
        0
    } else {
        1 + first_index(text.skip(1), sep)
    }
}

/// The fields of `text` between occurrences of `sep`. A text without `sep` is one
/// field, the empty text too; a trailing `sep` is followed by an empty field.
pub open spec fn split(text: Seq<char>, sep: char) -> Seq<Seq<char>>
    decreases text.len(),
{
    let cut = first_index(text, sep);
    if cut >= text.len() {
        seq![text]
    } else {
        seq![text.take(cut as int)] + split(text.skip(cut as int + 1), sep)
    }
}

/// No character of `text` is `sep`.
pub open spec fn is_free_of(text: Seq<char>, sep: char) -> bool {
    forall|i: int| 0 <= i < text.len() ==> text[i] != sep
}

/// `first_index` is the one place up to which `text` holds no `sep` and at
/// which it ends or holds one.
pub proof fn lemma_first_index(text: Seq<char>, sep: char, at: int)
    requires
        0 <= at <= text.len(),
        forall|i: int| 0 <= i < at ==> text[i] != sep,
        at == text.len() || text[at] == sep,
    ensures
        first_index(text, sep) == at,
    decreases at,
{
    if at > 0 {
        let rest = text.skip(1);
        assert forall|i: int| 0 <= i < at - 1 implies rest[i] != sep by {
            assert(rest[i] == text[i + 1]);
        }
        lemma_first_index(rest, sep, at - 1);
    }
}

/// What `first_index` finds: nothing before it is `sep`, and it is in range.
pub proof fn lemma_first_index_found(text: Seq<char>, sep: char)
    ensures
        first_index(text, sep) <= text.len(),
        forall|i: int| 0 <= i < first_index(text, sep) ==> text[i] != sep,
        first_index(text, sep) < text.len() ==> text[first_index(text, sep) as int] == sep,
    decreases text.len(),
{
    if text.len() == 0 || text[0] == sep {
    } else {
        let rest = text.skip(1);
        lemma_first_index_found(rest, sep);
        assert forall|i: int| 0 <= i < first_index(text, sep) implies text[i] != sep by {
            if i > 0 {
                assert(rest[i - 1] == text[i]);
            }
        }
    }
}

/// A text without `sep` is its own single field.
pub proof fn lemma_split_whole(text: Seq<char>, sep: char)
    requires
        is_free_of(text, sep),
    ensures
        split(text, sep) == seq![text],
{
    lemma_first_index(text, sep, text.len() as int);
}

/// A field without `sep`, then `sep`, then more text: the field comes first,
/// and the fields of the rest follow.
pub proof fn lemma_split_joined(head: Seq<char>, rest: Seq<char>, sep: char)
    requires
        is_free_of(head, sep),
    ensures
        split(head + seq![sep] + rest, sep) == seq![head] + split(rest, sep),
{
    let text = head + seq![sep] + rest;
    lemma_first_index(text, sep, head.len() as int);
    assert(text.take(head.len() as int) == head);
    assert(text.skip(head.len() as int + 1) == rest);
}

/// Some text, then `sep`, then a field without `sep`: the fields of the text
/// come first, and the field is the last.
pub proof fn lemma_split_push(head: Seq<char>, last: Seq<char>, sep: char)
    requires
        is_free_of(last, sep),
    ensures
        split(head + seq![sep] + last, sep) == split(head, sep).push(last),
    decreases head.len(),
{
    let cut = first_index(head, sep) as int;
    lemma_first_index_found(head, sep);
    lemma_split_whole(last, sep);
    if cut >= head.len() {
        lemma_split_joined(head, last, sep);
        assert(seq![head] + seq![last] == seq![head].push(last));
    } else {
        let first = head.take(cut);
        let rest = head.skip(cut + 1);
        assert(head == first + seq![sep] + rest);
        assert(head + seq![sep] + last == first + seq![sep] + (rest + seq![sep] + last));
        lemma_split_joined(first, rest + seq![sep] + last, sep);
        lemma_split_push(rest, last, sep);
        lemma_split_joined(first, rest, sep);
        assert(seq![first] + split(rest, sep).push(last) == (seq![first] + split(rest, sep)).push(
            last,
        ));
    }
}

/// A character of `text` other than `sep` stands in one of the fields of
/// `text`: the lemma returns the field and the place in it.
pub proof fn lemma_split_keeps(text: Seq<char>, sep: char, at: int) -> (found: (int, int))
    requires
        0 <= at < text.len(),
        text[at] != sep,
    ensures
        0 <= found.0 < split(text, sep).len(),
        0 <= found.1 < split(text, sep)[found.0].len(),
        split(text, sep)[found.0][found.1] == text[at],
    decreases text.len(),
{
    let cut = first_index(text, sep) as int;
    lemma_first_index_found(text, sep);
    if cut >= text.len() || at < cut {
        (0, at)
    } else {
        let rest = text.skip(cut + 1);
        let (field, place) = lemma_split_keeps(rest, sep, at - cut - 1);
        assert((seq![text.take(cut)] + split(rest, sep))[field + 1] == split(rest, sep)[field]);
        (field + 1, place)
    }
}

/// The characters of `s`, in order.
pub fn chars_of(s: &str) -> (chars: Vec<char>)
    ensures
        chars@ == s@,
{
    let mut chars: Vec<char> = Vec::new();
    for c in it: s.chars()
        invariant
            chars@ == s@.take(it.index() as int),
            it.seq() == s@,
    {
        chars.push(c);
    }
    chars
}

/// The place of the first `sep` at or after `start`, or the length of
/// `chars` where none follows.
pub(crate) fn find_from(chars: &[char], start: usize, sep: char) -> (at: usize)
    requires
        start <= chars@.len(),
    ensures
        start <= at <= chars@.len(),
        at == start + first_index(chars@.skip(start as int), sep),
{
    let mut at: usize = start;
    while at < chars.len() && chars[at] != sep
        invariant
            start <= at <= chars@.len(),
            forall|i: int| start <= i < at ==> chars@[i] != sep,
        decreases chars@.len() - at,
    {
        at += 1;
    }
    proof {
        lemma_first_index(chars@.skip(start as int), sep, at - start);
    }
    at
}

/// A stretch of a text: the characters from `start` up to, not including, `end`.
#[derive(Clone, Copy, Debug)]
pub struct Span {
    pub start: usize,
    pub end: usize,
}

impl Span {
    /// The characters of `text` that the span covers.
    pub open spec fn of(self, text: Seq<char>) -> Seq<char> {
        text.subrange(self.start as int, self.end as int)
    }

    /// The span lies within a text of `len` characters.
    pub open spec fn fits(self, len: nat) -> bool {
        self.start <= self.end <= len
    }
}

/// The fields of `chars` between occurrences of `sep`, each as the stretch of
/// `chars` that it covers, in order.
pub fn split_spans(chars: &[char], sep: char) -> (spans: Vec<Span>)
    ensures
        spans@.len() == split(chars@, sep).len(),
        forall|i: int|
            0 <= i < spans@.len() ==> (#[trigger] spans@[i]).fits(chars@.len()) && spans@[i].of(
                chars@,
            ) == split(chars@, sep)[i],
{
    let mut spans: Vec<Span> = Vec::new();
    let mut start: usize = 0;
    let ghost mut done: Seq<Seq<char>> = Seq::empty();
    assert(chars@.skip(0) == chars@);
    loop
        invariant_except_break
            start <= chars@.len(),
            split(chars@, sep) == done + split(chars@.skip(start as int), sep),
        invariant
            done.len() == spans@.len(),
            forall|i: int|
                0 <= i < spans@.len() ==> (#[trigger] spans@[i]).fits(chars@.len())
                    && spans@[i].of(chars@) == done[i],
        ensures
            split(chars@, sep) == done,
        decreases chars@.len() - start,
    {
        let end = find_from(chars, start, sep);
        let ghost rest = chars@.skip(start as int);
        let ghost field = chars@.subrange(start as int, end as int);
        proof {
            assert(rest.take(end - start) == field);
            if end < chars@.len() {
                assert(rest.skip(end - start + 1) == chars@.skip(end + 1));
                assert(done + (seq![field] + split(chars@.skip(end + 1), sep)) == done.push(field)
                    + split(chars@.skip(end + 1), sep));
            } else {
                assert(rest == field);
                assert(done + seq![field] == done.push(field));
            }
            done = done.push(field);
        }
        spans.push(Span { start, end });
        if end == chars.len() {
            break ;
        }
        start = end + 1;
    }
    spans
}

} // verus!
