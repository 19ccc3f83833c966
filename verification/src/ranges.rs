//! Pairs of ranges of section numbers, and whether the two ranges of a
//! pair overlap.

use vstd::prelude::*;
use crate::pattern::{captures_of, captures_view, groups_view, pattern_accepted, Pattern};
use crate::text::{chars_of, decimal_u64, parse_u64, strings_view};

verus! {

/// The larger of two numbers.
pub open spec fn larger(a: int, b: int) -> int {
    if a >= b {
        a
    } else {
        b
    }
}

/// The smaller of two numbers.
pub open spec fn smaller(a: int, b: int) -> int {
    if a <= b {
        a
    } else {
        b
    }
}

/// How far the ranges `a0..=a1` and `b0..=b1` are apart: the later start
/// less the earlier end. Zero or less where the ranges share a section.
pub open spec fn overlap(a0: int, a1: int, b0: int, b1: int) -> int {
    larger(a0, b0) - smaller(a1, b1)
}

/// How far two ranges are apart: the later of their starts less the
/// earlier of their ends.
pub fn get_overlap(a: [&i32; 2], b: [&i32; 2]) -> (r: i32)
    requires
        i32::MIN <= overlap(*a[0] as int, *a[1] as int, *b[0] as int, *b[1] as int) <= i32::MAX,
    ensures
        r == overlap(*a[0] as int, *a[1] as int, *b[0] as int, *b[1] as int),
{
    let start: i32 = if *a[0] >= *b[0] {
        *a[0]
    } else {
        *b[0]
    };
    let end: i32 = if *a[1] <= *b[1] {
        *a[1]
    } else {
        *b[1]
    };
    start - end
}

/// Why the pairs cannot be counted.
#[derive(Clone, Copy, Debug, PartialEq, Eq, Structural)]
pub enum RangeError {
    /// The pattern for a pair of ranges was rejected.
    PatternRejected,
    /// A section number of a matched pair is missing or does not fit in
    /// 32 bits.
    SectionUnreadable,
}

/// How many pairs overlap, and in how many of them one range holds the
/// other.
#[derive(Clone, Copy, Debug, PartialEq, Eq, Structural)]
pub struct OverlapCount {
    /// The pairs whose ranges share a section.
    pub overlapping: u128,
    /// The pairs in which one range lies within the other.
    pub contained: u128,
}

/// The counts as mathematical values.
pub struct Tally {
    pub overlapping: nat,
    pub contained: nat,
}

impl View for OverlapCount {
    type V = Tally;

    open spec fn view(&self) -> Tally {
        Tally { overlapping: self.overlapping as nat, contained: self.contained as nat }
    }
}

/// The pattern of a line that holds a pair of ranges, `a-b,c-d`, with one
/// group for each of the four numbers.
pub open spec fn pair_pattern() -> Seq<char> {
    r"^(?:(\d+)-(\d+)),(?:(\d+)-(\d+))$"@
}

/// The section number in group `i` of a match, where the group took part
/// and holds a run of decimal digits that fits in 32 bits with a sign.
pub open spec fn section(groups: Seq<Option<Seq<char>>>, i: int) -> Option<int> {
    if 0 <= i < groups.len() {
        match groups[i] {
            Some(text) => match decimal_u64(text) {
                Some(v) => if v <= i32::MAX {
                    Some(v as int)
                } else {
                    None
                },
                None => None,
            },
            None => None,
        }
    } else {
        None
    }
}

/// Whether the ranges `a0..=a1` and `b0..=b1` share a section.
pub open spec fn ranges_overlap(a0: int, a1: int, b0: int, b1: int) -> bool {
    overlap(a0, a1, b0, b1) <= 0
}

/// Whether the ranges share a section and one of them lies within the
/// other: they are no further apart than the longer of them is long.
pub open spec fn range_contained(a0: int, a1: int, b0: int, b1: int) -> bool {
    ranges_overlap(a0, a1, b0, b1) && overlap(a0, a1, b0, b1) <= larger(a0 - a1, b0 - b1)
}

/// The counts after one more match: the groups 1 to 4 of the match are
/// the bounds of the two ranges.
pub open spec fn count_match(tally: Tally, groups: Seq<Option<Seq<char>>>) -> Result<Tally, RangeError> {
    match (section(groups, 1), section(groups, 2), section(groups, 3), section(groups, 4)) {
        (Some(a0), Some(a1), Some(b0), Some(b1)) => Ok(
            Tally {
                overlapping: if ranges_overlap(a0, a1, b0, b1) {
                    tally.overlapping + 1
                } else {
                    tally.overlapping
                },
                contained: if range_contained(a0, a1, b0, b1) {
                    tally.contained + 1
                } else {
                    tally.contained
                },
            },
        ),
        _ => Err(RangeError::SectionUnreadable),
    }
}

/// The counts after all matches of one line.
pub open spec fn count_matches(tally: Tally, found: Seq<Seq<Option<Seq<char>>>>) -> Result<Tally, RangeError>
    decreases found.len(),
{
    if found.len() == 0 {
        Ok(tally)
    } else {
        match count_matches(tally, found.drop_last()) {
            Ok(before) => count_match(before, found.last()),
            Err(e) => Err(e),
        }
    }
}

/// The counts after all `lines`, each searched for pairs with
/// `pair_pattern`.
pub open spec fn count_lines(lines: Seq<Seq<char>>) -> Result<Tally, RangeError>
    decreases lines.len(),
{
    if lines.len() == 0 {
        Ok(Tally { overlapping: 0, contained: 0 })
    } else {
        match count_lines(lines.drop_last()) {
            Ok(before) => count_matches(before, captures_of(pair_pattern(), lines.last())),
            Err(e) => Err(e),
        }
    }
}

/// Counts that have failed fail whatever follows, and counts never go
/// down.
pub proof fn lemma_count_matches_prefix(tally: Tally, found: Seq<Seq<Option<Seq<char>>>>, k: int)
    requires
        0 <= k <= found.len(),
    ensures
        count_matches(tally, found.take(k)) matches Err(e) ==> count_matches(tally, found) == Err::<
            Tally,
            RangeError,
        >(e),
        count_matches(tally, found) matches Ok(all) ==> all.overlapping <= tally.overlapping
            + found.len() && all.contained <= tally.contained + found.len(),
    decreases found.len(),
{
    if found.len() > 0 {
        if k < found.len() {
            assert(found.drop_last().take(k) =~= found.take(k));
            lemma_count_matches_prefix(tally, found.drop_last(), k);
        } else {
            assert(found.take(k) =~= found);
            lemma_count_matches_prefix(tally, found.drop_last(), k - 1);
        }
    } else {
        assert(found.take(k) =~= found);
    }
}

/// Counts that have failed fail whatever follows.
pub proof fn lemma_count_lines_prefix(lines: Seq<Seq<char>>, k: int)
    requires
        0 <= k <= lines.len(),
    ensures
        count_lines(lines.take(k)) matches Err(e) ==> count_lines(lines) == Err::<Tally, RangeError>(e),
    decreases lines.len(),
{
    if k < lines.len() {
        assert(lines.drop_last().take(k) =~= lines.take(k));
        lemma_count_lines_prefix(lines.drop_last(), k);
    } else {
        assert(lines.take(k) =~= lines);
    }
}

/// Reads the section number in group `i` of a match.
fn read_section(groups: &Vec<Option<String>>, i: usize) -> (r: Option<i32>)
    ensures
        match r {
            Some(v) => section(groups_view(groups@), i as int) == Some(v as int),
            None => section(groups_view(groups@), i as int) is None,
        },
{
    if i >= groups.len() {
        return None;
    }
    match &groups[i] {
        Some(text) => {
            let word = chars_of(text.as_str());
            match parse_u64(&word) {
                Some(v) => if v <= i32::MAX as u64 {
                    Some(v as i32)
                } else {
                    None
                },
                None => None,
            }
        },
        None => None,
    }
}

/// Counts one match: whether its two ranges overlap, and whether one of
/// them holds the other. `count` must have room for one more.
pub fn tally_match(count: OverlapCount, groups: &Vec<Option<String>>) -> (r: Result<OverlapCount, RangeError>)
    requires
        count.overlapping < u128::MAX,
        count.contained < u128::MAX,
    ensures
        match count_match(count@, groups_view(groups@)) {
            Ok(after) => r matches Ok(c) && c@ == after,
            Err(e) => r == Err::<OverlapCount, RangeError>(e),
        },
{
    let (one, two, three, four) = match (
        read_section(groups, 1),
        read_section(groups, 2),
        read_section(groups, 3),
        read_section(groups, 4),
    ) {
        (Some(one), Some(two), Some(three), Some(four)) => (one, two, three, four),
        _ => {
            return Err(RangeError::SectionUnreadable);
        },
    };
    let mut after = count;
    let apart: i32 = get_overlap([&one, &two], [&three, &four]);
    if apart <= 0 {
        after.overlapping = after.overlapping + 1;
        let first: i32 = one - two;
        let second: i32 = three - four;
        let longer: i32 = if first >= second {
            first
        } else {
            second
        };
        if apart <= longer {
            after.contained = after.contained + 1;
        }
    }
    Ok(after)
}

/// Counts, among the pairs of ranges that `lines` hold, those that
/// overlap and those in which one range holds the other. A line that
/// holds no pair counts for nothing.
pub fn count_overlaps(lines: &Vec<String>) -> (r: Result<OverlapCount, RangeError>)
    ensures
        match r {
            Ok(count) => pattern_accepted(pair_pattern()) && count_lines(strings_view(lines@)) == Ok::<
                Tally,
                RangeError,
            >(count@),
            Err(RangeError::PatternRejected) => !pattern_accepted(pair_pattern()),
            Err(e) => pattern_accepted(pair_pattern()) && count_lines(strings_view(lines@)) == Err::<
                Tally,
                RangeError,
            >(e),
        },
{
    let ghost all = strings_view(lines@);
    let pattern = match Pattern::compile(r"^(?:(\d+)-(\d+)),(?:(\d+)-(\d+))$") {
        Ok(pattern) => pattern,
        Err(_) => {
            return Err(RangeError::PatternRejected);
        },
    };
    let mut count = OverlapCount { overlapping: 0, contained: 0 };
    let ghost mut seen: nat = 0;
    let mut i: usize = 0;
    assert(all.take(0) =~= Seq::<Seq<char>>::empty());
    while i < lines.len()
        invariant
            all == strings_view(lines@),
            pattern@ == pair_pattern(),
            0 <= i <= lines@.len(),
            pattern_accepted(pair_pattern()),
            count_lines(all.take(i as int)) == Ok::<Tally, RangeError>(count@),
            count.overlapping <= seen && count.contained <= seen,
            seen <= i * usize::MAX,
        decreases lines@.len() - i,
    {
        proof {
            assert(all.take(i + 1).drop_last() =~= all.take(i as int));
            assert(all.take(i + 1).last() == lines@[i as int]@);
            lemma_count_lines_prefix(all, i + 1);
        }
        let found = pattern.captures(lines[i].as_str());
        let ghost groups = captures_view(found@);
        let ghost before = count@;
        let mut k: usize = 0;
        assert(groups.take(0) =~= Seq::<Seq<Option<Seq<char>>>>::empty());
        while k < found.len()
            invariant
                groups == captures_view(found@),
                0 <= k <= found@.len(),
                count_matches(before, groups.take(k as int)) == Ok::<Tally, RangeError>(count@),
                count.overlapping <= seen + k && count.contained <= seen + k,
                seen <= i * usize::MAX,
                i < usize::MAX,
                pattern_accepted(pair_pattern()),
                count_matches(before, groups) matches Err(e) ==> count_lines(strings_view(lines@))
                    == Err::<Tally, RangeError>(e),
            decreases found@.len() - k,
        {
            proof {
                assert(groups.take(k + 1).drop_last() =~= groups.take(k as int));
                assert(groups.take(k + 1).last() == groups_view(found@[k as int]@));
                lemma_count_matches_prefix(before, groups, k + 1);
                assert(seen + k < u128::MAX) by (nonlinear_arith)
                    requires
                        seen <= i * usize::MAX,
                        i < usize::MAX,
                        k < usize::MAX,
                        usize::MAX <= 0xffff_ffff_ffff_ffff,
                ;
            }
            match tally_match(count, &found[k]) {
                Ok(after) => {
                    count = after;
                },
                Err(e) => {
                    return Err(e);
                },
            }
            k += 1;
        }
        proof {
            assert(groups.take(k as int) =~= groups);
            seen = seen + found@.len();
            assert((i + 1) * usize::MAX == i * usize::MAX + usize::MAX) by (nonlinear_arith);
        }
        i += 1;
    }
    proof {
        assert(all.take(i as int) =~= all);
    }
    Ok(count)
}

} // verus!
