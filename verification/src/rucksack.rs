//! Rucksacks: the item that two compartments, or three rucksacks, have in
//! common, and the sum of the priorities of such items.
//!
//! A rucksack is a line of text and each character is one item. The first
//! half of the line is one compartment and the second half the other.

use vstd::prelude::*;
use vstd::utf8::{decode_utf8, encode_utf8, encode_utf8_decode_utf8, is_char_boundary};
use vstd::slice::slice_subrange;
use vstd::string::StringSliceAdditionalSpecFns;
use crate::text::chars_of;

verus! {

/// The last of the first `n` characters of `b` that occurs in `a`.
pub open spec fn last_common_among(a: Seq<char>, b: Seq<char>, n: int) -> Option<char>
    decreases n,
{
    if n <= 0 {
        None
    } else if a.contains(b[n - 1]) {
        Some(b[n - 1])
    } else {
        last_common_among(a, b, n - 1)
    }
}

/// The last character of `b` that occurs in `a`.
pub open spec fn last_common(a: Seq<char>, b: Seq<char>) -> Option<char> {
    last_common_among(a, b, b.len() as int)
}

/// The last of the first `n` characters of `a` that occurs in both `b`
/// and `c`.
pub open spec fn last_shared_among(a: Seq<char>, b: Seq<char>, c: Seq<char>, n: int) -> Option<char>
    decreases n,
{
    if n <= 0 {
        None
    } else if b.contains(a[n - 1]) && c.contains(a[n - 1]) {
        Some(a[n - 1])
    } else {
        last_shared_among(a, b, c, n - 1)
    }
}

/// The last character of `a` that occurs in both `b` and `c`.
pub open spec fn last_shared(a: Seq<char>, b: Seq<char>, c: Seq<char>) -> Option<char> {
    last_shared_among(a, b, c, a.len() as int)
}

/// The priority of an item: 1 to 26 for `a` to `z`, and 27 to 52 for `A`
/// to `Z`. The formula is defined from `0` on.
pub open spec fn priority(c: char) -> nat {
    if c as u32 - 48 >= 48 {
        (c as u32 - 96) as nat
    } else {
        (c as u32 - 38) as nat
    }
}

/// The two compartments of a rucksack: the text before and after the
/// middle byte of the line, where that byte begins a character.
pub open spec fn compartments(line: Seq<char>) -> Option<(Seq<char>, Seq<char>)> {
    let bytes = encode_utf8(line);
    let mid = bytes.len() as int / 2;
    if is_char_boundary(bytes, mid) {
        Some((decode_utf8(bytes.subrange(0, mid)), decode_utf8(bytes.subrange(mid, bytes.len() as int))))
    } else {
        None
    }
}

/// The priority of the item that the two compartments of a rucksack have
/// in common, where the rucksack has compartments and such an item, and
/// the item has a priority.
pub open spec fn rucksack_priority(line: Seq<char>) -> Option<nat> {
    match compartments(line) {
        Some((first, second)) => match last_common(first, second) {
            Some(c) => if c as u32 >= 48 {
                Some(priority(c))
            } else {
                None
            },
            None => None,
        },
        None => None,
    }
}

/// The sum of the priorities of the rucksacks `lines`, where each of them
/// has one.
pub open spec fn priority_sum(lines: Seq<Seq<char>>) -> Option<nat>
    decreases lines.len(),
{
    if lines.len() == 0 {
        Some(0)
    } else {
        match (priority_sum(lines.drop_last()), rucksack_priority(lines.last())) {
            (Some(sum), Some(p)) => Some(sum + p),
            _ => None,
        }
    }
}

/// The priority of the badge of a group of three rucksacks: of the item
/// that all three hold, where there is one and it has a priority.
pub open spec fn badge_priority(a: Seq<char>, b: Seq<char>, c: Seq<char>) -> Option<nat> {
    match last_shared(a, b, c) {
        Some(badge) => if badge as u32 >= 48 {
            Some(priority(badge))
        } else {
            None
        },
        None => None,
    }
}

/// The sum of the badge priorities of the first `groups` groups of three
/// among `lines`, where each group has one.
pub open spec fn badge_sum_among(lines: Seq<Seq<char>>, groups: int) -> Option<nat>
    decreases groups,
{
    if groups <= 0 {
        Some(0)
    } else {
        match (
            badge_sum_among(lines, groups - 1),
            badge_priority(lines[3 * groups - 3], lines[3 * groups - 2], lines[3 * groups - 1]),
        ) {
            (Some(sum), Some(p)) => Some(sum + p),
            _ => None,
        }
    }
}

/// The sum of the badge priorities of all full groups of three among
/// `lines`; lines left over at the end form no group.
pub open spec fn badge_sum(lines: Seq<Seq<char>>) -> Option<nat> {
    badge_sum_among(lines, lines.len() as int / 3)
}

/// Lines of text as mathematical values.
pub open spec fn lines_of(lines: Seq<String>) -> Seq<Seq<char>> {
    Seq::new(lines.len(), |i: int| lines[i]@)
}

/// Lower-case letters have the priorities 1 to 26, upper-case letters the
/// priorities 27 to 52.
pub proof fn lemma_letter_priorities(c: char)
    ensures
        'a' <= c <= 'z' ==> priority(c) == 1 + (c as u32 - 'a' as u32),
        'A' <= c <= 'Z' ==> priority(c) == 27 + (c as u32 - 'A' as u32),
{
}

/// Whether `c` occurs in `a`.
fn contains_char(a: &Vec<char>, c: char) -> (r: bool)
    ensures
        r == a@.contains(c),
{
    let mut i: usize = 0;
    while i < a.len()
        invariant
            0 <= i <= a@.len(),
            forall|j: int| 0 <= j < i ==> a@[j] != c,
        decreases a@.len() - i,
    {
        if a[i] == c {
            return true;
        }
        i += 1;
    }
    false
}

/// Looks for the last character of `b` that occurs in `a`.
pub fn find_common_char(a: &str, b: &str) -> (r: Option<char>)
    ensures
        r == last_common(a@, b@),
{
    let x = chars_of(a);
    let y = chars_of(b);
    let mut n: usize = y.len();
    while n > 0
        invariant
            x@ == a@,
            y@ == b@,
            0 <= n <= y@.len(),
            last_common(a@, b@) == last_common_among(a@, b@, n as int),
        decreases n,
    {
        if contains_char(&x, y[n - 1]) {
            return Some(y[n - 1]);
        }
        n -= 1;
    }
    None
}

/// The last character of `b` that occurs in `a`.
pub fn get_common_char(a: &str, b: &str) -> (c: char)
    requires
        last_common(a@, b@) is Some,
    ensures
        Some(c) == last_common(a@, b@),
{
    match find_common_char(a, b) {
        Some(c) => c,
        None => ' ',
    }
}

/// Looks for the last character of the first rucksack that occurs in the
/// second and the third too.
pub fn find_group_common_char(group: &[String]) -> (r: Option<char>)
    requires
        group@.len() >= 3,
    ensures
        r == last_shared(group@[0]@, group@[1]@, group@[2]@),
{
    let x = chars_of(group[0].as_str());
    let y = chars_of(group[1].as_str());
    let z = chars_of(group[2].as_str());
    let mut n: usize = x.len();
    while n > 0
        invariant
            x@ == group@[0]@,
            y@ == group@[1]@,
            z@ == group@[2]@,
            0 <= n <= x@.len(),
            last_shared(x@, y@, z@) == last_shared_among(x@, y@, z@, n as int),
        decreases n,
    {
        if contains_char(&y, x[n - 1]) && contains_char(&z, x[n - 1]) {
            return Some(x[n - 1]);
        }
        n -= 1;
    }
    None
}

/// The last character of the first rucksack that occurs in the second and
/// the third too.
pub fn get_group_common_char(group: &[String]) -> (c: char)
    requires
        group@.len() >= 3,
        last_shared(group@[0]@, group@[1]@, group@[2]@) is Some,
    ensures
        Some(c) == last_shared(group@[0]@, group@[1]@, group@[2]@),
{
    match find_group_common_char(group) {
        Some(c) => c,
        None => ' ',
    }
}

/// The priority of the item `c`.
pub fn get_char_priority(c: char) -> (p: u32)
    requires
        c as u32 >= 48,
    ensures
        p == priority(c),
{
    let value: u32 = c as u32 - 48;
    if value >= 48 {
        value - 48
    } else {
        value + 10
    }
}

/// The two compartments of a rucksack, where its middle byte begins a
/// character.
pub fn split_compartments(line: &str) -> (r: Option<(&str, &str)>)
    ensures
        match r {
            Some((first, second)) => compartments(line@) == Some((first@, second@)),
            None => compartments(line@) is None,
        },
{
    let mid: usize = line.as_bytes().len() / 2;
    if !line.is_char_boundary(mid) {
        return None;
    }
    let (first, second) = line.split_at(mid);
    proof {
        let bytes = encode_utf8(line@);
        assert(line.spec_bytes() == bytes);
        assert(mid as int == bytes.len() as int / 2);
        encode_utf8_decode_utf8(first@);
        encode_utf8_decode_utf8(second@);
        assert(first@ == decode_utf8(bytes.subrange(0, mid as int)));
        assert(second@ == decode_utf8(bytes.subrange(mid as int, bytes.len() as int)));
    }
    Some((first, second))
}

/// The priority of one rucksack, where it has one.
pub fn find_rucksack_priority(line: &str) -> (r: Option<u32>)
    ensures
        match r {
            Some(p) => rucksack_priority(line@) == Some(p as nat),
            None => rucksack_priority(line@) is None,
        },
{
    let (first, second) = match split_compartments(line) {
        Some(halves) => halves,
        None => {
            return None;
        },
    };
    match find_common_char(first, second) {
        Some(c) => {
            if c as u32 >= 48 {
                Some(get_char_priority(c))
            } else {
                None
            }
        },
        None => None,
    }
}

/// The sum of the priorities of the rucksacks `lines`: nothing where a
/// rucksack has no priority or the sum does not fit in 32 bits.
pub fn checked_prio_sum(lines: &Vec<String>) -> (r: Option<u32>)
    ensures
        match r {
            Some(sum) => priority_sum(lines_of(lines@)) == Some(sum as nat),
            None => match priority_sum(lines_of(lines@)) {
                Some(sum) => sum > u32::MAX,
                None => true,
            },
        },
{
    let ghost all = lines_of(lines@);
    let mut sum: u32 = 0;
    let mut i: usize = 0;
    assert(all.take(0) =~= Seq::<Seq<char>>::empty());
    while i < lines.len()
        invariant
            all == lines_of(lines@),
            0 <= i <= lines@.len(),
            priority_sum(all.take(i as int)) == Some(sum as nat),
        decreases lines@.len() - i,
    {
        proof {
            assert(all.take(i + 1).drop_last() =~= all.take(i as int));
            assert(all.take(i + 1).last() == lines@[i as int]@);
            lemma_priority_sum_prefix(all, i + 1);
        }
        match find_rucksack_priority(lines[i].as_str()) {
            Some(p) => {
                match sum.checked_add(p) {
                    Some(next) => {
                        sum = next;
                    },
                    None => {
                        return None;
                    },
                }
            },
            None => {
                return None;
            },
        }
        i += 1;
    }
    proof {
        assert(all.take(i as int) =~= all);
    }
    Some(sum)
}

/// The sum of the priorities of the rucksacks `lines`.
pub fn get_prio_sum(lines: &Vec<String>) -> (sum: u32)
    requires
        priority_sum(lines_of(lines@)) matches Some(total) && total <= u32::MAX,
    ensures
        priority_sum(lines_of(lines@)) == Some(sum as nat),
{
    match checked_prio_sum(lines) {
        Some(sum) => sum,
        None => 0,
    }
}

/// The sum of the badge priorities of the groups of three among `lines`:
/// nothing where a group has no badge priority or the sum does not fit in
/// 32 bits.
pub fn checked_group_prio_sum(lines: &Vec<String>) -> (r: Option<u32>)
    ensures
        match r {
            Some(sum) => badge_sum(lines_of(lines@)) == Some(sum as nat),
            None => match badge_sum(lines_of(lines@)) {
                Some(sum) => sum > u32::MAX,
                None => true,
            },
        },
{
    let ghost all = lines_of(lines@);
    let groups: usize = lines.len() / 3;
    let mut sum: u32 = 0;
    let mut g: usize = 0;
    while g < groups
        invariant
            all == lines_of(lines@),
            groups == lines.len() / 3,
            0 <= g <= groups,
            badge_sum_among(all, g as int) == Some(sum as nat),
        decreases groups - g,
    {
        proof {
            lemma_badge_sum_prefix(all, g + 1, groups as int);
        }
        let group = slice_subrange(lines.as_slice(), 3 * g, 3 * g + 3);
        let found = match find_group_common_char(group) {
            Some(c) => {
                if c as u32 >= 48 {
                    Some(get_char_priority(c))
                } else {
                    None
                }
            },
            None => None,
        };
        match found {
            Some(p) => {
                match sum.checked_add(p) {
                    Some(next) => {
                        sum = next;
                    },
                    None => {
                        return None;
                    },
                }
            },
            None => {
                return None;
            },
        }
        g += 1;
    }
    Some(sum)
}

/// The sum of the badge priorities of the groups of three among `lines`.
pub fn get_group_prio_sum(lines: &Vec<String>) -> (sum: u32)
    requires
        badge_sum(lines_of(lines@)) matches Some(total) && total <= u32::MAX,
    ensures
        badge_sum(lines_of(lines@)) == Some(sum as nat),
{
    match checked_group_prio_sum(lines) {
        Some(sum) => sum,
        None => 0,
    }
}

/// A sum that is missing or too large for a prefix of the rucksacks is
/// missing or too large for all of them.
pub proof fn lemma_priority_sum_prefix(lines: Seq<Seq<char>>, k: int)
    requires
        0 <= k <= lines.len(),
    ensures
        priority_sum(lines.take(k)) is None ==> priority_sum(lines) is None,
        priority_sum(lines) matches Some(total) ==> priority_sum(lines.take(k)) matches Some(part)
            && part <= total,
    decreases lines.len(),
{
    if k < lines.len() {
        assert(lines.drop_last().take(k) =~= lines.take(k));
        lemma_priority_sum_prefix(lines.drop_last(), k);
    } else {
        assert(lines.take(k) =~= lines);
    }
}

/// A badge sum that is missing or too large for the first groups is
/// missing or too large for more of them.
pub proof fn lemma_badge_sum_prefix(lines: Seq<Seq<char>>, k: int, groups: int)
    requires
        0 <= k <= groups,
    ensures
        badge_sum_among(lines, k) is None ==> badge_sum_among(lines, groups) is None,
        badge_sum_among(lines, groups) matches Some(total) ==> badge_sum_among(lines, k) matches Some(part)
            && part <= total,
    decreases groups,
{
    if k < groups {
        lemma_badge_sum_prefix(lines, k, groups - 1);
    }
}

} // verus!
