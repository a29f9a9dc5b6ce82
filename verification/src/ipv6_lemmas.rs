//! Reading the text of an IPv6 address gives the address back: the proof, case
//! by case of how the address was written.

use crate::ipv4::{
    ipv4_of_text, ipv4_text, lemma_ipv4_text_chars, lemma_ipv4_text_reads_back,
    lemma_ipv4_text_shape,
};
use crate::ipv6::{
    all_groups, first_gap, group_values, ipv6_of_text, ipv6_text, is_gap, is_group_text,
    is_longest_zero_run, is_v4_mapped, joined_groups, lemma_first_gap, longest_zero_run,
    mapped_octets, quad_groups, side_groups, zero_groups, zero_run,
};
use crate::numeral::{hex_text, hex_value, is_hex_digit, lemma_hex_text};
use crate::text::{is_free_of, lemma_split_joined, lemma_split_push, lemma_split_whole, split};
use vstd::prelude::*;

verus! {

/// The numerals of `groups`, as they stand in an address.
pub open spec fn group_texts(groups: Seq<u16>) -> Seq<Seq<char>> {
    Seq::new(groups.len(), |i: int| hex_text(groups[i] as nat))
}

/// The numeral of a group is read as that group, and holds hexadecimal digits
/// only.
pub proof fn lemma_group_text(group: u16)
    ensures
        is_group_text(hex_text(group as nat)),
        hex_value(hex_text(group as nat)) == group,
        is_free_of(hex_text(group as nat), ':'),
{
    lemma_hex_text(group as nat);
}

/// What joined groups look like: their fields are the numerals of the groups;
/// they begin and end with a digit; no `:` follows another; and they hold
/// hexadecimal digits and `:` only.
pub proof fn lemma_joined_groups(groups: Seq<u16>)
    requires
        groups.len() > 0,
    ensures
        split(joined_groups(groups), ':') == group_texts(groups),
        joined_groups(groups).len() > 0,
        is_hex_digit(joined_groups(groups)[0]),
        is_hex_digit(joined_groups(groups).last()),
        forall|i: int| !is_gap(joined_groups(groups), i),
        forall|i: int|
            0 <= i < joined_groups(groups).len() ==> is_hex_digit(
                #[trigger] joined_groups(groups)[i],
            ) || joined_groups(groups)[i] == ':',
        groups.len() > 1 ==> exists|i: int|
            0 <= i < joined_groups(groups).len() && #[trigger] joined_groups(groups)[i] == ':',
    decreases groups.len(),
{
    let text = joined_groups(groups);
    let numeral = hex_text(groups.last() as nat);
    lemma_group_text(groups.last());
    if groups.len() == 1 {
        lemma_split_whole(text, ':');
        assert(seq![text] == group_texts(groups));
    } else {
        let before = joined_groups(groups.drop_last());
        lemma_joined_groups(groups.drop_last());
        lemma_split_push(before, numeral, ':');
        assert(group_texts(groups.drop_last()).push(numeral) == group_texts(groups));
        assert(text == before + seq![':'] + numeral);
        assert(text[0] == before[0]);
        assert(text.last() == numeral.last());
        assert forall|i: int| !is_gap(text, i) by {
            if is_gap(text, i) {
                if i + 1 < before.len() {
                    assert(is_gap(before, i));
                } else if i + 1 == before.len() {
                    assert(text[i] == before.last());
                } else if i == before.len() {
                    assert(text[i + 1] == numeral[0]);
                } else {
                    assert(text[i] == numeral[i - before.len() - 1]);
                }
            }
        }
        assert forall|i: int| 0 <= i < text.len() implies is_hex_digit(#[trigger] text[i])
            || text[i] == ':' by {
            if i < before.len() {
                assert(text[i] == before[i]);
            } else if i > before.len() {
                assert(text[i] == numeral[i - before.len() - 1]);
            }
        }
        assert(text[before.len() as int] == ':');
    }
}

/// Reading joined groups as one side of an address gives the groups back.
pub proof fn lemma_side_of_joined(groups: Seq<u16>, quad_allowed: bool)
    ensures
        side_groups(joined_groups(groups), quad_allowed) == Some(groups),
{
    if groups.len() == 0 {
        assert(groups == Seq::<u16>::empty());
    } else {
        lemma_joined_groups(groups);
        let fields = group_texts(groups);
        assert forall|i: int| 0 <= i < fields.len() implies is_group_text(#[trigger] fields[i]) by {
            lemma_group_text(groups[i]);
        }
        assert forall|i: int| 0 <= i < groups.len() implies group_values(fields)[i]
            == groups[i] by {
            lemma_group_text(groups[i]);
        }
        assert(group_values(fields) == groups);
    }
}

/// Where a text that holds no `::` and does not end with `:` is followed by
/// `::`, that is the first `::`.
pub proof fn lemma_gap_between(head: Seq<char>, tail: Seq<char>)
    requires
        forall|i: int| !is_gap(head, i),
        head.len() == 0 || head.last() != ':',
    ensures
        first_gap(head + seq![':', ':'] + tail) == head.len(),
{
    let text = head + seq![':', ':'] + tail;
    assert forall|i: int| 0 <= i < head.len() implies !is_gap(text, i) by {
        if is_gap(text, i) {
            if i + 1 < head.len() {
                assert(is_gap(head, i));
            } else {
                assert(text[i] == head.last());
            }
        }
    }
    assert(is_gap(text, head.len() as int));
    lemma_first_gap(text, head.len() as int);
}

/// The groups of a run are zero, and the run ends within the groups.
pub proof fn lemma_zero_run(groups: Seq<u16>, at: int)
    requires
        0 <= at <= groups.len(),
    ensures
        at + zero_run(groups, at) <= groups.len(),
        forall|i: int| at <= i < at + zero_run(groups, at) ==> groups[i] == 0,
    decreases groups.len() - at,
{
    if at < groups.len() && groups[at] == 0 {
        lemma_zero_run(groups, at + 1);
    }
}

/// From `from` on, there is a place where the longest run of zero groups
/// begins: the lemma returns it.
pub proof fn lemma_longest_zero_run_from(groups: Seq<u16>, from: int) -> (best: int)
    requires
        0 <= from <= groups.len(),
    ensures
        from <= best <= groups.len(),
        forall|j: int| from <= j < groups.len() ==> zero_run(groups, j) <= zero_run(groups, best),
        forall|j: int| from <= j < best ==> zero_run(groups, j) < zero_run(groups, best),
    decreases groups.len() - from,
{
    if from == groups.len() {
        from
    } else {
        let later = lemma_longest_zero_run_from(groups, from + 1);
        if zero_run(groups, from) >= zero_run(groups, later) {
            from
        } else {
            later
        }
    }
}

/// An address in which `::` stands for a run of zero groups is read as the
/// groups it was written from.
pub proof fn lemma_shortened_reads_back(groups: Seq<u16>, at: int, run: int)
    requires
        groups.len() == 8,
        0 <= at,
        1 <= run,
        at + run <= 8,
        forall|i: int| at <= i < at + run ==> groups[i] == 0,
    ensures
        ipv6_of_text(
            joined_groups(groups.take(at)) + seq![':', ':'] + joined_groups(groups.skip(at + run)),
        ) == Some(groups),
{
    let head = groups.take(at);
    let tail = groups.skip(at + run);
    let before = joined_groups(head);
    let after = joined_groups(tail);
    let text = before + seq![':', ':'] + after;
    if head.len() > 0 {
        lemma_joined_groups(head);
    }
    lemma_gap_between(before, after);
    assert(text.take(before.len() as int) == before);
    assert(text.skip(before.len() as int + 2) == after);
    lemma_side_of_joined(head, false);
    lemma_side_of_joined(tail, true);
    assert(head + zero_groups(run as nat) + tail == groups);
}

/// An address written without `::` is read as the groups it was written from.
pub proof fn lemma_full_reads_back(groups: Seq<u16>)
    requires
        groups.len() == 8,
    ensures
        ipv6_of_text(joined_groups(groups)) == Some(groups),
{
    let text = joined_groups(groups);
    lemma_joined_groups(groups);
    lemma_first_gap(text, text.len() as int);
    lemma_side_of_joined(groups, true);
}

/// An address that carries an IPv4 address is read as the groups it was
/// written from.
pub proof fn lemma_mapped_reads_back(groups: Seq<u16>)
    requires
        groups.len() == 8,
        is_v4_mapped(groups),
    ensures
        ipv6_of_text(seq![':', ':', 'f', 'f', 'f', 'f', ':'] + ipv4_text(mapped_octets(groups)))
            == Some(groups),
{
    let octets = mapped_octets(groups);
    let quad = ipv4_text(octets);
    let text = seq![':', ':', 'f', 'f', 'f', 'f', ':'] + quad;
    let ffff = seq!['f', 'f', 'f', 'f'];
    let after = ffff + seq![':'] + quad;
    lemma_ipv4_text_shape(octets);
    lemma_ipv4_text_reads_back(octets);
    assert(is_gap(text, 0));
    lemma_first_gap(text, 0);
    assert(text.take(0).len() == 0);
    assert(text.skip(2) == after);
    // the fields after `::` are `ffff` and the IPv4 address
    lemma_split_whole(quad, ':');
    lemma_split_joined(ffff, quad, ':');
    let fields = split(after, ':');
    assert(fields == seq![ffff, quad]);
    assert(fields.drop_last() == seq![ffff]);
    assert(fields.last() == quad);
    assert(is_group_text(ffff));
    assert(hex_value(ffff) == 0xffff) by {
        reveal_with_fuel(hex_value, 5);
    }
    // the IPv4 address is no numeral of a group
    lemma_ipv4_text_shape(octets);
    assert(!all_groups(fields)) by {
        let dot = choose|i: int| 0 <= i < quad.len() && #[trigger] quad[i] == '.';
        assert(!is_hex_digit(quad[dot]));
        assert(!is_group_text(fields[1]));
    }
    assert(group_values(fields.drop_last()) == seq![0xffffu16]);
    assert(quad_groups(octets) == seq![groups[6], groups[7]]);
    assert(Seq::<u16>::empty() + zero_groups(5) + (seq![0xffffu16] + seq![groups[6], groups[7]])
        == groups);
}

/// The text of eight groups is not empty and holds hexadecimal digits, `:`
/// and `.` only.
pub proof fn lemma_ipv6_text_shape(groups: Seq<u16>)
    requires
        groups.len() == 8,
    ensures
        ipv6_text(groups).len() > 0,
        forall|i: int|
            0 <= i < ipv6_text(groups).len() ==> is_hex_digit(#[trigger] ipv6_text(groups)[i])
                || ipv6_text(groups)[i] == ':' || ipv6_text(groups)[i] == '.',
{
    let text = ipv6_text(groups);
    if is_v4_mapped(groups) {
        let mark = seq![':', ':', 'f', 'f', 'f', 'f', ':'];
        let quad = ipv4_text(mapped_octets(groups));
        lemma_ipv4_text_shape(mapped_octets(groups));
        assert forall|i: int| 0 <= i < text.len() implies is_hex_digit(#[trigger] text[i])
            || text[i] == ':' || text[i] == '.' by {
            if i >= 7 {
                assert(text[i] == quad[i - 7]);
            }
        }
    } else {
        let at = longest_zero_run(groups);
        let run = zero_run(groups, at) as int;
        if run > 1 {
            let found = lemma_longest_zero_run_from(groups, 0);
            assert(is_longest_zero_run(groups, found));
            lemma_zero_run(groups, at);
            let head = groups.take(at);
            let tail = groups.skip(at + run);
            let before = joined_groups(head);
            let after = joined_groups(tail);
            if head.len() > 0 {
                lemma_joined_groups(head);
            }
            if tail.len() > 0 {
                lemma_joined_groups(tail);
            }
            assert forall|i: int| 0 <= i < text.len() implies is_hex_digit(#[trigger] text[i])
                || text[i] == ':' || text[i] == '.' by {
                if i < before.len() {
                    assert(text[i] == before[i]);
                } else if i >= before.len() + 2 {
                    assert(text[i] == after[i - before.len() - 2]);
                }
            }
        } else {
            lemma_joined_groups(groups);
        }
    }
}

/// Reading the text of eight groups gives the groups back, and the text is
/// not in the dotted-decimal notation of IPv4.
pub proof fn lemma_ipv6_text_reads_back(groups: Seq<u16>)
    requires
        groups.len() == 8,
    ensures
        ipv6_of_text(ipv6_text(groups)) == Some(groups),
        ipv4_of_text(ipv6_text(groups)) is None,
{
    let text = ipv6_text(groups);
    if is_v4_mapped(groups) {
        lemma_mapped_reads_back(groups);
        lemma_ipv4_text_chars(text, 0);
    } else {
        let found = lemma_longest_zero_run_from(groups, 0);
        assert(is_longest_zero_run(groups, found));
        let at = longest_zero_run(groups);
        let run = zero_run(groups, at) as int;
        lemma_zero_run(groups, at);
        if run > 1 {
            lemma_shortened_reads_back(groups, at, run);
            let before = joined_groups(groups.take(at));
            assert(text[before.len() as int] == ':');
            lemma_ipv4_text_chars(text, before.len() as int);
        } else {
            lemma_full_reads_back(groups);
            lemma_joined_groups(groups);
            let colon = choose|i: int| 0 <= i < text.len() && #[trigger] text[i] == ':';
            lemma_ipv4_text_chars(text, colon);
        }
    }
}

} // verus!
