//! IPv4 addresses in dotted-decimal notation: four octets, each written as a
//! decimal numeral without leading zeros, with a `.` between them.

use crate::numeral::{
    decimal_text, decimal_value, is_decimal, is_digit, lemma_decimal_text, parse_decimal,
    push_decimal,
};
use crate::text::{
    is_free_of, lemma_split_joined, lemma_split_keeps, lemma_split_whole, split, split_spans,
};
use vstd::prelude::*;
use vstd::slice::slice_subrange;
use vstd::string::*;

verus! {

/// The numeral of an octet: a decimal numeral for at most 255 that does not
/// begin with a needless zero.
pub open spec fn is_octet_text(text: Seq<char>) -> bool {
    &&& is_decimal(text)
    &&& text.len() > 1 ==> text[0] != '0'
    &&& decimal_value(text) <= 255
}

/// The four octets that a text stands for in dotted-decimal notation, if it
/// is in that notation.
pub open spec fn ipv4_of_text(text: Seq<char>) -> Option<Seq<u8>> {
    let fields = split(text, '.');
    if fields.len() == 4 && forall|i: int| 0 <= i < 4 ==> is_octet_text(#[trigger] fields[i]) {
        Some(
            seq![
                decimal_value(fields[0]) as u8,
                decimal_value(fields[1]) as u8,
                decimal_value(fields[2]) as u8,
                decimal_value(fields[3]) as u8,
            ],
        )
    } else {
        None
    }
}

/// The dotted-decimal notation of four octets.
pub open spec fn ipv4_text(octets: Seq<u8>) -> Seq<char> {
    decimal_text(octets[0] as nat) + seq!['.'] + decimal_text(octets[1] as nat) + seq!['.']
        + decimal_text(octets[2] as nat) + seq!['.'] + decimal_text(octets[3] as nat)
}

/// The numeral of an octet is read as that octet, and holds digits only.
pub proof fn lemma_octet_text(octet: u8)
    ensures
        is_octet_text(decimal_text(octet as nat)),
        decimal_value(decimal_text(octet as nat)) == octet,
        is_free_of(decimal_text(octet as nat), '.'),
{
    lemma_decimal_text(octet as nat);
}

/// The fields of an address in dotted-decimal notation are the numerals of
/// its octets.
pub proof fn lemma_ipv4_text_fields(octets: Seq<u8>)
    requires
        octets.len() == 4,
    ensures
        split(ipv4_text(octets), '.') == seq![
            decimal_text(octets[0] as nat),
            decimal_text(octets[1] as nat),
            decimal_text(octets[2] as nat),
            decimal_text(octets[3] as nat),
        ],
{
    let first = decimal_text(octets[0] as nat);
    let second = decimal_text(octets[1] as nat);
    let third = decimal_text(octets[2] as nat);
    let fourth = decimal_text(octets[3] as nat);
    lemma_octet_text(octets[0]);
    lemma_octet_text(octets[1]);
    lemma_octet_text(octets[2]);
    lemma_octet_text(octets[3]);
    lemma_split_whole(fourth, '.');
    lemma_split_joined(third, fourth, '.');
    lemma_split_joined(second, third + seq!['.'] + fourth, '.');
    lemma_split_joined(first, second + seq!['.'] + (third + seq!['.'] + fourth), '.');
    assert(ipv4_text(octets) == first + seq!['.'] + (second + seq!['.'] + (third + seq!['.']
        + fourth)));
    assert(seq![first] + (seq![second] + (seq![third] + seq![fourth])) == seq![
        first,
        second,
        third,
        fourth,
    ]);
}

/// Reading the dotted-decimal notation of four octets gives the octets back.
pub proof fn lemma_ipv4_text_reads_back(octets: Seq<u8>)
    requires
        octets.len() == 4,
    ensures
        ipv4_of_text(ipv4_text(octets)) == Some(octets),
{
    lemma_ipv4_text_fields(octets);
    lemma_octet_text(octets[0]);
    lemma_octet_text(octets[1]);
    lemma_octet_text(octets[2]);
    lemma_octet_text(octets[3]);
    let fields = split(ipv4_text(octets), '.');
    assert forall|i: int| 0 <= i < 4 implies is_octet_text(#[trigger] fields[i]) by {
        assert(fields[i] == decimal_text(octets[i] as nat));
    }
    assert(ipv4_of_text(ipv4_text(octets))->0 == octets);
}

/// The dotted-decimal notation of four octets is made of digits and `.`, and
/// holds a `.`.
pub proof fn lemma_ipv4_text_shape(octets: Seq<u8>)
    requires
        octets.len() == 4,
    ensures
        ipv4_text(octets).len() > 0,
        forall|i: int|
            0 <= i < ipv4_text(octets).len() ==> is_digit(#[trigger] ipv4_text(octets)[i])
                || ipv4_text(octets)[i] == '.',
        exists|i: int| 0 <= i < ipv4_text(octets).len() && #[trigger] ipv4_text(octets)[i] == '.',
{
    assert(ipv4_text(octets)[decimal_text(octets[0] as nat).len() as int] == '.');
    lemma_decimal_text(octets[0] as nat);
    lemma_decimal_text(octets[1] as nat);
    lemma_decimal_text(octets[2] as nat);
    lemma_decimal_text(octets[3] as nat);
}

/// A text in dotted-decimal notation holds digits and `.` only: no text that
/// holds anything else is in that notation.
pub proof fn lemma_ipv4_text_chars(text: Seq<char>, at: int)
    requires
        0 <= at < text.len(),
        text[at] != '.',
        !is_digit(text[at]),
    ensures
        ipv4_of_text(text) is None,
{
    let (field, place) = lemma_split_keeps(text, '.', at);
    let fields = split(text, '.');
    if fields.len() == 4 {
        assert(!is_digit(fields[field][place]));
        assert(!is_octet_text(fields[field]));
    }
}

/// Reads the numeral of an octet.
pub fn parse_octet(text: &[char]) -> (octet: Option<u8>)
    ensures
        octet == (if is_octet_text(text@) {
            Some(decimal_value(text@) as u8)
        } else {
            None
        }),
{
    if text.len() > 1 && text[0] == '0' {
        return None;
    }
    match parse_decimal(text, 255) {
        Some(value) => Some(value as u8),
        None => None,
    }
}

/// Reads an address in dotted-decimal notation.
pub fn parse_ipv4(text: &[char]) -> (octets: Option<[u8; 4]>)
    ensures
        match octets {
            Some(found) => ipv4_of_text(text@) == Some(found@),
            None => ipv4_of_text(text@) is None,
        },
{
    let spans = split_spans(text, '.');
    if spans.len() != 4 {
        return None;
    }
    let ghost fields = split(text@, '.');
    let mut octets: [u8; 4] = [0, 0, 0, 0];
    let mut i: usize = 0;
    while i < 4
        invariant
            i <= 4,
            spans@.len() == 4,
            fields == split(text@, '.'),
            fields.len() == 4,
            forall|j: int|
                0 <= j < 4 ==> (#[trigger] spans@[j]).fits(text@.len()) && spans@[j].of(text@)
                    == fields[j],
            forall|j: int| 0 <= j < i ==> is_octet_text(#[trigger] fields[j]),
            forall|j: int| 0 <= j < i ==> octets@[j] == decimal_value(fields[j]) as u8,
        decreases 4 - i,
    {
        let span = spans[i];
        let field = slice_subrange(text, span.start, span.end);
        assert(field@ == fields[i as int]);
        match parse_octet(field) {
            Some(octet) => {
                octets[i] = octet;
            },
            None => {
                return None;
            },
        }
        i += 1;
    }
    assert(octets@ == ipv4_of_text(text@)->0);
    Some(octets)
}

/// Writes the dotted-decimal notation of `octets` at the end of `out`.
pub fn push_ipv4(out: &mut String, octets: &[u8; 4])
    ensures
        final(out)@ == old(out)@ + ipv4_text(octets@),
{
    push_decimal(out, octets[0]);
    out.push('.');
    push_decimal(out, octets[1]);
    out.push('.');
    push_decimal(out, octets[2]);
    out.push('.');
    push_decimal(out, octets[3]);
    assert(out@ == old(out)@ + ipv4_text(octets@));
}

} // verus!
