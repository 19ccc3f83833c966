//! Calories: the food of each elf is a group of lines, one number a line,
//! and a blank line closes a group.

use vstd::prelude::*;
use crate::text::{chars_of, parse_signed, signed_in_range, strings_view};

verus! {

/// Whether `v` is a number of 32 bits with a sign.
pub open spec fn fits_i32(v: int) -> bool {
    i32::MIN <= v <= i32::MAX
}

/// The sums of the closed groups among the first `n` lines, and the sum
/// of the group that is still open. Nothing where a line that is not
/// blank is no number, or a sum does not fit in 32 bits.
pub open spec fn tally_among(lines: Seq<Seq<char>>, n: int) -> Option<(Seq<i32>, int)>
    decreases n,
{
    if n <= 0 {
        Some((Seq::empty(), 0))
    } else {
        match tally_among(lines, n - 1) {
            Some((sums, open)) => if lines[n - 1].len() == 0 {
                Some((sums.push(open as i32), 0))
            } else {
                match signed_in_range(lines[n - 1], i32::MIN as int, i32::MAX as int) {
                    Some(item) => if fits_i32(open + item) {
                        Some((sums, open + item))
                    } else {
                        None
                    },
                    None => None,
                }
            },
            None => None,
        }
    }
}

/// The sums of the groups of `lines`. A group counts once a blank line
/// has closed it: what follows the last blank line is left out.
pub open spec fn group_sums_of(lines: Seq<Seq<char>>) -> Option<Seq<i32>> {
    match tally_among(lines, lines.len() as int) {
        Some((sums, _)) => Some(sums),
        None => None,
    }
}

/// A tally that is lost stays lost.
pub proof fn lemma_tally_stays_lost(lines: Seq<Seq<char>>, k: int, n: int)
    requires
        k <= n,
    ensures
        tally_among(lines, k) is None ==> tally_among(lines, n) is None,
    decreases n - k,
{
    if k < n {
        lemma_tally_stays_lost(lines, k, n - 1);
    }
}

/// The sums of the groups of `lines`, where every line that is not blank
/// is a number and every sum fits in 32 bits.
pub fn group_sums(lines: &Vec<String>) -> (r: Option<Vec<i32>>)
    ensures
        match r {
            Some(sums) => group_sums_of(strings_view(lines@)) == Some(sums@),
            None => group_sums_of(strings_view(lines@)) is None,
        },
{
    let ghost all = strings_view(lines@);
    let mut sum: i32 = 0;
    let mut sums: Vec<i32> = Vec::new();
    let mut i: usize = 0;
    while i < lines.len()
        invariant
            all == strings_view(lines@),
            0 <= i <= lines@.len(),
            tally_among(all, i as int) == Some((sums@, sum as int)),
        decreases lines@.len() - i,
    {
        let content = lines[i].as_str();
        proof {
            assert(all[i as int] == content@);
            lemma_tally_stays_lost(all, i + 1, lines@.len() as int);
        }
        if !content.is_empty() {
            let word = chars_of(content);
            match parse_signed(&word, i32::MIN as i64, i32::MAX as i64) {
                Some(item) => match sum.checked_add(item as i32) {
                    Some(next) => {
                        sum = next;
                    },
                    None => {
                        return None;
                    },
                },
                None => {
                    return None;
                },
            }
        } else {
            sums.push(sum);
            sum = 0;
        }
        i += 1;
    }
    Some(sums)
}

/// The largest of the sums; nothing where there is no sum.
pub fn largest(sums: &Vec<i32>) -> (r: Option<i32>)
    ensures
        match r {
            Some(most) => sums@.contains(most) && forall|i: int|
                0 <= i < sums@.len() ==> sums@[i] <= most,
            None => sums@.len() == 0,
        },
{
    if sums.len() == 0 {
        return None;
    }
    let mut most: i32 = sums[0];
    let mut i: usize = 1;
    while i < sums.len()
        invariant
            1 <= i <= sums@.len(),
            sums@.contains(most),
            forall|j: int| 0 <= j < i ==> sums@[j] <= most,
        decreases sums@.len() - i,
    {
        if sums[i] > most {
            most = sums[i];
        }
        i += 1;
    }
    Some(most)
}

/// Whether `a`, `b` and `c` are the three largest of the first `n` sums:
/// they stand at three different places, and no sum at another place is
/// larger than any of them.
pub open spec fn are_top_three(sums: Seq<i32>, n: int, a: i32, b: i32, c: i32) -> bool {
    exists|i: int, j: int, k: int|
        {
            &&& 0 <= i < n && 0 <= j < n && 0 <= k < n
            &&& i != j && j != k && i != k
            &&& #[trigger] sums[i] == a && #[trigger] sums[j] == b && #[trigger] sums[k] == c
            &&& a >= b >= c
            &&& forall|m: int| 0 <= m < n && m != i && m != j && m != k ==> sums[m] <= c
        }
}

/// The three largest of the sums, the largest first; nothing where there
/// are fewer than three sums.
pub fn top_three(sums: &Vec<i32>) -> (r: Option<(i32, i32, i32)>)
    ensures
        match r {
            Some((a, b, c)) => are_top_three(sums@, sums@.len() as int, a, b, c),
            None => sums@.len() < 3,
        },
{
    if sums.len() < 3 {
        return None;
    }
    let mut a: i32 = sums[0];
    let mut b: i32 = sums[1];
    let mut c: i32 = sums[2];
    let ghost mut i0: int = 0;
    let ghost mut j0: int = 1;
    let ghost mut k0: int = 2;
    if a < b {
        let t = a;
        a = b;
        b = t;
        proof {
            i0 = 1;
            j0 = 0;
        }
    }
    if b < c {
        let t = b;
        b = c;
        c = t;
        proof {
            let t = j0;
            j0 = k0;
            k0 = t;
        }
    }
    if a < b {
        let t = a;
        a = b;
        b = t;
        proof {
            let t = i0;
            i0 = j0;
            j0 = t;
        }
    }
    let mut n: usize = 3;
    while n < sums.len()
        invariant
            3 <= n <= sums@.len(),
            0 <= i0 < n && 0 <= j0 < n && 0 <= k0 < n,
            i0 != j0 && j0 != k0 && i0 != k0,
            sums@[i0] == a && sums@[j0] == b && sums@[k0] == c,
            a >= b >= c,
            forall|m: int| 0 <= m < n && m != i0 && m != j0 && m != k0 ==> sums@[m] <= c,
        decreases sums@.len() - n,
    {
        let v: i32 = sums[n];
        if v > a {
            c = b;
            b = a;
            a = v;
            proof {
                k0 = j0;
                j0 = i0;
                i0 = n as int;
            }
        } else if v > b {
            c = b;
            b = v;
            proof {
                k0 = j0;
                j0 = n as int;
            }
        } else if v > c {
            c = v;
            proof {
                k0 = n as int;
            }
        }
        n += 1;
    }
    Some((a, b, c))
}

/// The sum of the three largest sums; nothing where there are fewer than
/// three sums or their sum does not fit in 32 bits.
pub fn top_three_sum(sums: &Vec<i32>) -> (r: Option<i32>)
    ensures
        match r {
            Some(total) => exists|a: i32, b: i32, c: i32|
                are_top_three(sums@, sums@.len() as int, a, b, c) && total == a + b + c,
            None => sums@.len() < 3 || exists|a: i32, b: i32, c: i32|
                are_top_three(sums@, sums@.len() as int, a, b, c) && !fits_i32(a + b + c),
        },
{
    match top_three(sums) {
        Some((a, b, c)) => {
            let total: i64 = a as i64 + b as i64 + c as i64;
            if total < i32::MIN as i64 || total > i32::MAX as i64 {
                None
            } else {
                Some(total as i32)
            }
        },
        None => None,
    }
}

} // verus!
