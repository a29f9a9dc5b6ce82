//! IPv6 addresses in their text notation: eight groups of up to four
//! hexadecimal digits with `:` between them, where one `::` may stand for one
//! or more groups of zero and the last two groups may be written as an IPv4
//! address in dotted-decimal notation.

use crate::ipv4::{ipv4_of_text, ipv4_text, parse_ipv4, push_ipv4};
use crate::numeral::{hex_text, hex_value, is_hex, parse_hex_group, push_hex};
use crate::text::{split, split_spans};
use vstd::prelude::*;
use vstd::slice::slice_subrange;
use vstd::string::*;

verus! {

/// The numeral of a group: one to four hexadecimal digits.
pub open spec fn is_group_text(text: Seq<char>) -> bool {
    is_hex(text) && text.len() <= 4
}

/// Every one of `fields` is the numeral of a group.
pub open spec fn all_groups(fields: Seq<Seq<char>>) -> bool {
    forall|i: int| 0 <= i < fields.len() ==> is_group_text(#[trigger] fields[i])
}

/// The groups that `fields` stand for, numeral by numeral.
pub open spec fn group_values(fields: Seq<Seq<char>>) -> Seq<u16> {
    Seq::new(fields.len(), |i: int| hex_value(fields[i]) as u16)
}

/// The two groups that four octets fill, the first octet in the upper half of
/// the first group.
pub open spec fn quad_groups(octets: Seq<u8>) -> Seq<u16> {
    seq![
        (octets[0] as int * 256 + octets[1] as int) as u16,
        (octets[2] as int * 256 + octets[3] as int) as u16,
    ]
}

/// The groups written out in one side of an address, before or after `::`, or
/// in the whole of an address without `::`. An empty side holds no group. The
/// last field may be an IPv4 address, for two groups, where `quad_allowed`.
pub open spec fn side_groups(text: Seq<char>, quad_allowed: bool) -> Option<Seq<u16>> {
    let fields = split(text, ':');
    if text.len() == 0 {
        Some(Seq::empty())
    } else if all_groups(fields) {
        Some(group_values(fields))
    } else if quad_allowed && all_groups(fields.drop_last()) && ipv4_of_text(fields.last())
        is Some {
        Some(group_values(fields.drop_last()) + quad_groups(ipv4_of_text(fields.last())->0))
    } else {
        None
    }
}

/// `text` holds `::` at `at`.
pub open spec fn is_gap(text: Seq<char>, at: int) -> bool {
    0 <= at && at + 1 < text.len() && text[at] == ':' && text[at + 1] == ':'
}

/// The place of the first `::` in `text`, or the length of `text` where it
/// holds none.
pub open spec fn first_gap(text: Seq<char>) -> nat
    decreases text.len(),
{
    if text.len() < 2 {
        text.len()
    } else if text[0] == ':' && text[1] == ':' {
        0
    } else {
        1 + first_gap(text.skip(1))
    }
}

/// As many groups of zero.
pub open spec fn zero_groups(count: nat) -> Seq<u16> {
    Seq::new(count, |i: int| 0u16)
}

/// The eight groups that a text stands for, if it is an IPv6 address.
pub open spec fn ipv6_of_text(text: Seq<char>) -> Option<Seq<u16>> {
    let gap = first_gap(text) as int;
    if gap >= text.len() {
        match side_groups(text, true) {
            Some(groups) => if groups.len() == 8 {
                Some(groups)
            } else {
                None
            },
            None => None,
        }
    } else {
        match (side_groups(text.take(gap), false), side_groups(text.skip(gap + 2), true)) {
            (Some(head), Some(tail)) => if head.len() + tail.len() <= 7 {
                Some(head + zero_groups((8 - head.len() - tail.len()) as nat) + tail)
            } else {
                None
            },
            _ => None,
        }
    }
}

/// `first_gap` is the one place before which `text` holds no `::` and at
/// which it holds one or ends.
pub proof fn lemma_first_gap(text: Seq<char>, at: int)
    requires
        0 <= at <= text.len(),
        forall|i: int| 0 <= i < at ==> !is_gap(text, i),
        at == text.len() || is_gap(text, at),
    ensures
        first_gap(text) == at,
    decreases at,
{
    if at > 0 {
        let rest = text.skip(1);
        assert(text.len() >= 1);
        if text.len() >= 2 {
            assert(!is_gap(text, 0));
            assert forall|i: int| 0 <= i < at - 1 implies !is_gap(rest, i) by {
                assert(!is_gap(text, i + 1));
            }
            lemma_first_gap(rest, at - 1);
        }
    }
}

/// The place of the first `::` in `text`, or the length of `text`.
pub fn find_gap(text: &[char]) -> (at: usize)
    ensures
        at == first_gap(text@),
        at <= text@.len(),
        at < text@.len() ==> at + 2 <= text@.len(),
{
    let mut at: usize = 0;
    while at < text.len()
        invariant
            at <= text@.len(),
            forall|i: int| 0 <= i < at ==> !is_gap(text@, i),
        decreases text@.len() - at,
    {
        if text[at] == ':' && at + 1 < text.len() && text[at + 1] == ':' {
            proof {
                lemma_first_gap(text@, at as int);
            }
            return at;
        }
        at += 1;
    }
    proof {
        lemma_first_gap(text@, at as int);
    }
    at
}

/// The view of a list of groups that may be missing.
pub open spec fn groups_view(groups: Option<Vec<u16>>) -> Option<Seq<u16>> {
    match groups {
        Some(found) => Some(found@),
        None => None,
    }
}

/// Reads the groups of one side of an address.
pub fn parse_side(text: &[char], quad_allowed: bool) -> (groups: Option<Vec<u16>>)
    ensures
        groups_view(groups) == side_groups(text@, quad_allowed),
{
    let mut groups: Vec<u16> = Vec::new();
    if text.len() == 0 {
        return Some(groups);
    }
    let spans = split_spans(text, ':');
    let ghost fields = split(text@, ':');
    let mut i: usize = 0;
    while i < spans.len()
        invariant
            i <= spans@.len() == fields.len(),
            fields == split(text@, ':'),
            text@.len() > 0,
            forall|j: int|
                0 <= j < spans@.len() ==> (#[trigger] spans@[j]).fits(text@.len()) && spans@[j].of(
                    text@,
                ) == fields[j],
            groups@.len() == i,
            forall|j: int| 0 <= j < i ==> is_group_text(#[trigger] fields[j]),
            forall|j: int| 0 <= j < i ==> groups@[j] == hex_value(fields[j]) as u16,
        decreases spans@.len() - i,
    {
        let span = spans[i];
        let field = slice_subrange(text, span.start, span.end);
        assert(field@ == fields[i as int]);
        match parse_hex_group(field) {
            Some(group) => {
                groups.push(group);
            },
            None => {
                assert(!all_groups(fields));
                if quad_allowed && i + 1 == spans.len() {
                    assert(fields.last() == fields[i as int]);
                    assert(all_groups(fields.drop_last()));
                    match parse_ipv4(field) {
                        Some(octets) => {
                            let upper: u16 = octets[0] as u16 * 256 + octets[1] as u16;
                            let lower: u16 = octets[2] as u16 * 256 + octets[3] as u16;
                            groups.push(upper);
                            groups.push(lower);
                            assert(groups@ == group_values(fields.drop_last()) + quad_groups(
                                octets@,
                            ));
                            return Some(groups);
                        },
                        None => {
                            return None;
                        },
                    }
                } else {
                    if i + 1 < spans.len() {
                        assert(fields.drop_last()[i as int] == fields[i as int]);
                        assert(!all_groups(fields.drop_last()));
                    }
                    return None;
                }
            },
        }
        i += 1;
    }
    assert(all_groups(fields));
    assert(groups@ == group_values(fields));
    Some(groups)
}

/// The eight groups of an address of which `head` was written before `::`
/// and `tail` after it.
pub(crate) fn fill_groups(head: &Vec<u16>, tail: &Vec<u16>) -> (groups: [u16; 8])
    requires
        head@.len() + tail@.len() <= 7,
    ensures
        groups@ == head@ + zero_groups((8 - head@.len() - tail@.len()) as nat) + tail@,
{
    let mut groups: [u16; 8] = [0, 0, 0, 0, 0, 0, 0, 0];
    let mut i: usize = 0;
    while i < head.len()
        invariant
            i <= head@.len(),
            head@.len() + tail@.len() <= 7,
            forall|j: int| 0 <= j < i ==> groups@[j] == head@[j],
            forall|j: int| i <= j < 8 ==> groups@[j] == 0,
        decreases head@.len() - i,
    {
        groups[i] = head[i];
        i += 1;
    }
    let start: usize = 8 - tail.len();
    let mut k: usize = 0;
    while k < tail.len()
        invariant
            k <= tail@.len(),
            head@.len() + tail@.len() <= 7,
            start + tail@.len() == 8,
            forall|j: int| 0 <= j < head@.len() ==> groups@[j] == head@[j],
            forall|j: int| head@.len() <= j < start ==> groups@[j] == 0,
            forall|j: int| start <= j < start + k ==> groups@[j] == tail@[j - start],
        decreases tail@.len() - k,
    {
        groups[start + k] = tail[k];
        k += 1;
    }
    assert(groups@ =~= head@ + zero_groups((8 - head@.len() - tail@.len()) as nat) + tail@);
    groups
}

/// Reads an IPv6 address.
pub fn parse_ipv6(text: &[char]) -> (groups: Option<[u16; 8]>)
    ensures
        match groups {
            Some(found) => ipv6_of_text(text@) == Some(found@),
            None => ipv6_of_text(text@) is None,
        },
{
    let gap = find_gap(text);
    if gap >= text.len() {
        match parse_side(text, true) {
            Some(all) => {
                if all.len() != 8 {
                    return None;
                }
                let groups: [u16; 8] = [
                    all[0],
                    all[1],
                    all[2],
                    all[3],
                    all[4],
                    all[5],
                    all[6],
                    all[7],
                ];
                assert(groups@ =~= all@);
                Some(groups)
            },
            None => None,
        }
    } else {
        let before = slice_subrange(text, 0, gap);
        let after = slice_subrange(text, gap + 2, text.len());
        assert(before@ == text@.take(gap as int));
        assert(after@ == text@.skip(gap + 2));
        match (parse_side(before, false), parse_side(after, true)) {
            (Some(head), Some(tail)) => {
                if head.len() > 7 || tail.len() > 7 - head.len() {
                    None
                } else {
                    Some(fill_groups(&head, &tail))
                }
            },
            _ => None,
        }
    }
}

/// The groups with `:` between them, each as a hexadecimal numeral in lower
/// case without leading zeros.
pub open spec fn joined_groups(groups: Seq<u16>) -> Seq<char>
    decreases groups.len(),
{
    if groups.len() == 0 {
        Seq::empty()
    } else if groups.len() == 1 {
        hex_text(groups[0] as nat)
    } else {
        joined_groups(groups.drop_last()) + seq![':'] + hex_text(groups.last() as nat)
    }
}

/// How many groups of zero follow one another from `at` on.
pub open spec fn zero_run(groups: Seq<u16>, at: int) -> nat
    decreases groups.len() - at,
{
    if 0 <= at < groups.len() && groups[at] == 0 {
        1 + zero_run(groups, at + 1)
    } else {
        0
    }
}

/// No run of zero groups is longer than the one from `at` on, and none
/// before it is as long.
pub open spec fn is_longest_zero_run(groups: Seq<u16>, at: int) -> bool {
    &&& 0 <= at <= groups.len()
    &&& forall|j: int| 0 <= j < groups.len() ==> zero_run(groups, j) <= zero_run(groups, at)
    &&& forall|j: int| 0 <= j < at ==> zero_run(groups, j) < zero_run(groups, at)
}

/// Where the longest run of zero groups begins, the first of them where
/// several are as long.
pub open spec fn longest_zero_run(groups: Seq<u16>) -> int {
    choose|at: int| is_longest_zero_run(groups, at)
}

/// The address carries an IPv4 address: five groups of zero, then `ffff`.
pub open spec fn is_v4_mapped(groups: Seq<u16>) -> bool {
    &&& groups[0] == 0
    &&& groups[1] == 0
    &&& groups[2] == 0
    &&& groups[3] == 0
    &&& groups[4] == 0
    &&& groups[5] == 0xffff
}

/// The four octets in the last two of eight groups.
pub open spec fn mapped_octets(groups: Seq<u16>) -> Seq<u8> {
    seq![
        (groups[6] / 256) as u8,
        (groups[6] % 256) as u8,
        (groups[7] / 256) as u8,
        (groups[7] % 256) as u8,
    ]
}

/// The text of an address of eight groups. An address that carries an IPv4
/// address is `::ffff:` and that address in dotted-decimal notation. In any
/// other, the longest run of two or more groups of zero is written `::`.
pub open spec fn ipv6_text(groups: Seq<u16>) -> Seq<char> {
    if is_v4_mapped(groups) {
        seq![':', ':', 'f', 'f', 'f', 'f', ':'] + ipv4_text(mapped_octets(groups))
    } else {
        let at = longest_zero_run(groups);
        let run = zero_run(groups, at);
        if run > 1 {
            joined_groups(groups.take(at)) + seq![':', ':'] + joined_groups(groups.skip(at + run))
        } else {
            joined_groups(groups)
        }
    }
}

/// There is one place only where the longest run of zero groups begins.
pub proof fn lemma_longest_zero_run(groups: Seq<u16>, at: int)
    requires
        is_longest_zero_run(groups, at),
    ensures
        longest_zero_run(groups) == at,
{
    let chosen = longest_zero_run(groups);
    assert(is_longest_zero_run(groups, chosen));
    if chosen < at {
        assert(zero_run(groups, chosen) < zero_run(groups, at));
        assert(zero_run(groups, at) > 0);
    } else if at < chosen {
        assert(zero_run(groups, at) < zero_run(groups, chosen));
        assert(zero_run(groups, chosen) > 0);
    }
}

/// Where the longest run of zero groups begins, and its length.
pub fn find_longest_zero_run(groups: &[u16; 8]) -> (found: (usize, usize))
    ensures
        found.0 == longest_zero_run(groups@),
        found.1 == zero_run(groups@, found.0 as int),
        found.0 + found.1 <= 8,
{
    let mut best_at: usize = 8;
    let mut best: usize = 0;
    let mut run: usize = 0;
    let mut i: usize = 8;
    while i > 0
        invariant
            i <= best_at <= 8,
            groups@.len() == 8,
            run == zero_run(groups@, i as int),
            best == zero_run(groups@, best_at as int),
            i + run <= 8,
            best_at + best <= 8,
            i < 8 ==> best_at < 8,
            forall|j: int| i <= j < 8 ==> zero_run(groups@, j) <= best,
            forall|j: int| i <= j < best_at ==> zero_run(groups@, j) < best,
        decreases i,
    {
        i -= 1;
        if groups[i] == 0 {
            run += 1;
        } else {
            run = 0;
        }
        if run >= best {
            best = run;
            best_at = i;
        }
    }
    proof {
        lemma_longest_zero_run(groups@, best_at as int);
    }
    (best_at, best)
}

/// Writes the groups from `from` up to `to` at the end of `out`, with `:`
/// between them.
pub(crate) fn push_groups(out: &mut String, groups: &[u16; 8], from: usize, to: usize)
    requires
        from <= to <= 8,
    ensures
        final(out)@ == old(out)@ + joined_groups(groups@.subrange(from as int, to as int)),
{
    let mut i: usize = from;
    assert(groups@.subrange(from as int, from as int).len() == 0);
    while i < to
        invariant
            from <= i <= to <= 8,
            groups@.len() == 8,
            out@ == old(out)@ + joined_groups(groups@.subrange(from as int, i as int)),
        decreases to - i,
    {
        let ghost before = groups@.subrange(from as int, i as int);
        let ghost now = groups@.subrange(from as int, i + 1);
        assert(now.drop_last() == before);
        assert(now.last() == groups@[i as int]);
        if i > from {
            out.push(':');
        }
        push_hex(out, groups[i]);
        assert(out@ == old(out)@ + joined_groups(now));
        i += 1;
    }
}

/// Writes the text of an address at the end of `out`.
pub fn push_ipv6(out: &mut String, groups: &[u16; 8])
    ensures
        final(out)@ == old(out)@ + ipv6_text(groups@),
{
    if groups[0] == 0 && groups[1] == 0 && groups[2] == 0 && groups[3] == 0 && groups[4] == 0
        && groups[5] == 0xffff {
        let octets: [u8; 4] = [
            (groups[6] / 256) as u8,
            (groups[6] % 256) as u8,
            (groups[7] / 256) as u8,
            (groups[7] % 256) as u8,
        ];
        assert(octets@ == mapped_octets(groups@));
        proof {
            reveal_strlit("::ffff:");
        }
        out.append("::ffff:");
        assert("::ffff:"@ == seq![':', ':', 'f', 'f', 'f', 'f', ':']);
        push_ipv4(out, &octets);
    } else {
        let (at, run) = find_longest_zero_run(groups);
        if run > 1 {
            assert(groups@.subrange(0, at as int) == groups@.take(at as int));
            assert(groups@.subrange(at + run, 8) == groups@.skip(at + run));
            push_groups(out, groups, 0, at);
            proof {
                reveal_strlit("::");
            }
            out.append("::");
            assert("::"@ == seq![':', ':']);
            push_groups(out, groups, at + run, 8);
        } else {
            assert(groups@.subrange(0, 8) == groups@);
            push_groups(out, groups, 0, 8);
        }
    }
}

} // verus!
