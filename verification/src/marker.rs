//! Markers in a stream of characters: the first place where the last few
//! characters are all different.

use std::collections::HashSet;
use vstd::prelude::*;
use vstd::string::StrSliceExecFns;
use vstd::utf8::{char_u32_cast, encode_scalar, encode_utf8};
use crate::text::chars_of;

verus! {

/// Whether a window of characters marks a start: its characters are
/// pairwise different, and each of them is a single byte of text.
pub open spec fn is_unique_window(window: Seq<char>) -> bool {
    &&& forall|i: int, j: int| 0 <= i < j < window.len() ==> window[i] != window[j]
    &&& forall|i: int| 0 <= i < window.len() ==> (#[trigger] window[i]) as u32 <= 0x7f
}

/// Whether the `size` characters of `stream` from position `start` on are
/// a unique window.
pub open spec fn marks_at(stream: Seq<char>, size: int, start: int) -> bool {
    0 <= start && start + size <= stream.len() && is_unique_window(
        stream.subrange(start, start + size),
    )
}

/// The numbers of the characters of `s`.
pub open spec fn codes(s: Seq<char>) -> Seq<u32> {
    Seq::new(s.len(), |i: int| s[i] as u32)
}

/// A text takes at least one byte for each character, and exactly one
/// for each only where no character is above 127.
pub proof fn lemma_bytes_and_chars(s: Seq<char>)
    ensures
        encode_utf8(s).len() >= s.len(),
        encode_utf8(s).len() == s.len() <==> forall|i: int|
            0 <= i < s.len() ==> (#[trigger] s[i]) as u32 <= 0x7f,
    decreases s.len(),
{
    if s.len() > 0 {
        let rest = s.drop_first();
        lemma_bytes_and_chars(rest);
        let first = encode_scalar(s[0] as u32);
        assert(first.len() >= 1);
        assert(first.len() == 1 <==> s[0] as u32 <= 0x7f);
        assert(encode_utf8(s).len() == first.len() + encode_utf8(rest).len());
        if encode_utf8(s).len() == s.len() {
            assert forall|i: int| 0 <= i < s.len() implies (#[trigger] s[i]) as u32 <= 0x7f by {
                if i > 0 {
                    assert(rest[i - 1] == s[i]);
                }
            }
        }
        if forall|i: int| 0 <= i < s.len() ==> (#[trigger] s[i]) as u32 <= 0x7f {
            assert forall|i: int| 0 <= i < rest.len() implies (#[trigger] rest[i]) as u32 <= 0x7f by {
                assert(rest[i] == s[i + 1]);
            }
        }
    }
}

/// A text has as many different characters as it has bytes exactly where
/// it is a unique window.
pub proof fn lemma_unique_window(s: Seq<char>)
    ensures
        codes(s).to_set().len() == encode_utf8(s).len() <==> is_unique_window(s),
{
    let c = codes(s);
    c.lemma_cardinality_of_set();
    lemma_bytes_and_chars(s);
    if is_unique_window(s) {
        assert forall|i: int, j: int| 0 <= i < c.len() && 0 <= j < c.len() && i != j implies c[i]
            != c[j] by {
            if i < j {
                assert(s[i] != s[j]);
            } else {
                assert(s[j] != s[i]);
            }
            char_u32_cast(s[i], c[i]);
            char_u32_cast(s[j], c[j]);
        }
        c.unique_seq_to_set();
    }
    if c.to_set().len() == encode_utf8(s).len() {
        c.lemma_no_dup_set_cardinality();
        assert forall|i: int, j: int| 0 <= i < j < s.len() implies s[i] != s[j] by {
            assert(c[i] != c[j]);
        }
    }
}

/// Keeps a window whose characters are all different, with its position:
/// hands both back where the window holds as many different characters as
/// bytes, which is for a unique window, and nothing for any other.
pub fn all_unique_chars(index: usize, value: String) -> (r: Option<(usize, String)>)
    ensures
        match r {
            Some((at, kept)) => at == index && kept@ == value@ && is_unique_window(value@),
            None => !is_unique_window(value@),
        },
{
    let chars = chars_of(value.as_str());
    let ghost all = codes(value@);
    let mut set: HashSet<u32> = HashSet::new();
    let mut i: usize = 0;
    assert(all.take(0).to_set() =~= Set::<u32>::empty());
    while i < chars.len()
        invariant
            chars@ == value@,
            all == codes(value@),
            0 <= i <= chars@.len(),
            set@ == all.take(i as int).to_set(),
        decreases chars@.len() - i,
    {
        set.insert(chars[i] as u32);
        proof {
            let before = all.take(i as int);
            let after = all.take(i + 1);
            assert(after =~= before.push(all[i as int]));
            assert(after.to_set() =~= before.to_set().insert(all[i as int])) by {
                assert forall|x: u32| after.to_set().contains(x) <==> before.to_set().insert(
                    all[i as int],
                ).contains(x) by {
                    if after.contains(x) {
                        let k = choose|k: int| 0 <= k < after.len() && after[k] == x;
                        if k < i {
                            assert(before[k] == x);
                        }
                    }
                    if before.contains(x) {
                        let k = choose|k: int| 0 <= k < before.len() && before[k] == x;
                        assert(after[k] == x);
                    }
                    if x == all[i as int] {
                        assert(after[i as int] == x);
                    }
                }
            }
        }
        i += 1;
    }
    proof {
        assert(all.take(i as int) =~= all);
        lemma_unique_window(value@);
    }
    if set.len() == value.as_str().as_bytes().len() {
        Some((index, value))
    } else {
        None
    }
}

/// The number of characters of `content` up to the end of the first
/// unique window of `window_size` characters; nothing where no window is
/// unique.
pub fn find_marker(content: &str, window_size: usize) -> (r: Option<usize>)
    requires
        window_size > 0,
    ensures
        match r {
            Some(end) => {
                &&& marks_at(content@, window_size as int, end - window_size)
                &&& forall|start: int|
                    0 <= start < end - window_size ==> !marks_at(content@, window_size as int, start)
            },
            None => forall|start: int| !marks_at(content@, window_size as int, start),
        },
{
    let n: usize = content.unicode_len();
    if n < window_size {
        return None;
    }
    let mut start: usize = 0;
    while start <= n - window_size
        invariant
            n == content@.len(),
            0 < window_size <= n,
            0 <= start <= n - window_size + 1,
            forall|k: int| 0 <= k < start ==> !marks_at(content@, window_size as int, k),
        decreases n - window_size + 1 - start,
    {
        let window = content.substring_char(start, start + window_size).to_owned();
        match all_unique_chars(start, window) {
            Some((at, _)) => {
                return Some(at + window_size);
            },
            None => {},
        }
        start += 1;
    }
    None
}

} // verus!
