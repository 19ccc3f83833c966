//! Characters, whitespace-separated words and decimal numbers.

use vstd::prelude::*;
use vstd::string::StringExecFns;

verus! {

/// Which characters count as white space between words.
#[derive(Clone, Copy, Debug, PartialEq, Eq, Structural)]
pub enum Blank {
    /// Every character with the Unicode property `White_Space`.
    Unicode,
    /// Space, tab, line feed, form feed and carriage return.
    Ascii,
}

/// Whether `c` has the Unicode property `White_Space`.
pub open spec fn is_unicode_space(c: char) -> bool {
    let n = c as u32;
    ||| 0x09 <= n <= 0x0d
    ||| n == 0x20
    ||| n == 0x85
    ||| n == 0xa0
    ||| n == 0x1680
    ||| 0x2000 <= n <= 0x200a
    ||| n == 0x2028
    ||| n == 0x2029
    ||| n == 0x202f
    ||| n == 0x205f
    ||| n == 0x3000
}

/// Whether `c` is a space, a tab, a line feed, a form feed or a carriage
/// return.
pub open spec fn is_ascii_space(c: char) -> bool {
    let n = c as u32;
    n == 0x20 || n == 0x09 || n == 0x0a || n == 0x0c || n == 0x0d
}

/// Whether `c` is white space of the kind `blank`.
pub open spec fn is_space(c: char, blank: Blank) -> bool {
    match blank {
        Blank::Unicode => is_unicode_space(c),
        Blank::Ascii => is_ascii_space(c),
    }
}

/// The first position at or after `i` that holds no white space, or the
/// length of `s` when only white space follows.
pub open spec fn skip_spaces(s: Seq<char>, i: int, blank: Blank) -> int
    decreases s.len() - i,
{
    if 0 <= i < s.len() && is_space(s[i], blank) {
        skip_spaces(s, i + 1, blank)
    } else {
        i
    }
}

/// The first position at or after `i` that holds white space, or the length
/// of `s` when none follows.
pub open spec fn word_end(s: Seq<char>, i: int, blank: Blank) -> int
    decreases s.len() - i,
{
    if 0 <= i < s.len() && !is_space(s[i], blank) {
        word_end(s, i + 1, blank)
    } else {
        i
    }
}

/// The words of `s` that begin at or after position `i`.
pub open spec fn words_from(s: Seq<char>, i: int, blank: Blank) -> Seq<Seq<char>>
    decreases s.len() - i,
{
    let a = skip_spaces(s, i, blank);
    if 0 <= i && a < s.len() {
        proof {
            lemma_skip_spaces(s, i, blank);
            lemma_word_end(s, a, blank);
        }
        seq![s.subrange(a, word_end(s, a, blank))] + words_from(s, word_end(s, a, blank), blank)
    } else {
        Seq::empty()
    }
}

/// The words of `s`: its maximal runs of characters that are not white
/// space, from left to right.
pub open spec fn words(s: Seq<char>, blank: Blank) -> Seq<Seq<char>> {
    words_from(s, 0, blank)
}

/// `skip_spaces` moves forward, stays in range, and stops on a character
/// that is no white space.
pub proof fn lemma_skip_spaces(s: Seq<char>, i: int, blank: Blank)
    requires
        0 <= i <= s.len(),
    ensures
        i <= skip_spaces(s, i, blank) <= s.len(),
        skip_spaces(s, i, blank) < s.len() ==> !is_space(s[skip_spaces(s, i, blank)], blank),
        forall|k: int| i <= k < skip_spaces(s, i, blank) ==> is_space(#[trigger] s[k], blank),
    decreases s.len() - i,
{
    if i < s.len() && is_space(s[i], blank) {
        lemma_skip_spaces(s, i + 1, blank);
    }
}

/// `word_end` moves forward, stays in range, and stops on white space.
pub proof fn lemma_word_end(s: Seq<char>, i: int, blank: Blank)
    requires
        0 <= i <= s.len(),
    ensures
        i <= word_end(s, i, blank) <= s.len(),
        word_end(s, i, blank) < s.len() ==> is_space(s[word_end(s, i, blank)], blank),
        i < s.len() && !is_space(s[i], blank) ==> i < word_end(s, i, blank),
        forall|k: int| i <= k < word_end(s, i, blank) ==> !is_space(#[trigger] s[k], blank),
    decreases s.len() - i,
{
    if i < s.len() && !is_space(s[i], blank) {
        lemma_word_end(s, i + 1, blank);
    }
}

/// Every word is non-empty and free of white space.
pub proof fn lemma_words_are_runs(s: Seq<char>, i: int, k: int, blank: Blank)
    requires
        0 <= i <= s.len(),
        0 <= k < words_from(s, i, blank).len(),
    ensures
        words_from(s, i, blank)[k].len() > 0,
        forall|j: int|
            0 <= j < words_from(s, i, blank)[k].len() ==> !is_space(
                #[trigger] words_from(s, i, blank)[k][j],
                blank,
            ),
    decreases s.len() - i,
{
    lemma_skip_spaces(s, i, blank);
    let a = skip_spaces(s, i, blank);
    if a < s.len() {
        lemma_word_end(s, a, blank);
        if k > 0 {
            lemma_words_are_runs(s, word_end(s, a, blank), k - 1, blank);
        }
    }
}

/// Decides `is_space`.
pub fn is_whitespace(c: char, blank: Blank) -> (r: bool)
    ensures
        r == is_space(c, blank),
{
    let n: u32 = c as u32;
    match blank {
        Blank::Unicode => (0x09 <= n && n <= 0x0d) || n == 0x20 || n == 0x85 || n == 0xa0 || n
            == 0x1680 || (0x2000 <= n && n <= 0x200a) || n == 0x2028 || n == 0x2029 || n == 0x202f
            || n == 0x205f || n == 0x3000,
        Blank::Ascii => n == 0x20 || n == 0x09 || n == 0x0a || n == 0x0c || n == 0x0d,
    }
}

/// The characters of `s`, in order.
pub fn chars_of(s: &str) -> (v: Vec<char>)
    ensures
        v@ == s@,
{
    let mut v: Vec<char> = Vec::new();
    for c in it: s.chars()
        invariant
            it.seq() == s@,
            v@ == it.seq().take(it.index() as int),
    {
        v.push(c);
    }
    v
}

/// The pieces of `chars` between the given bounds.
pub open spec fn pieces(chars: Seq<char>, bounds: Seq<(usize, usize)>) -> Seq<Seq<char>> {
    Seq::new(bounds.len(), |k: int| chars.subrange(bounds[k].0 as int, bounds[k].1 as int))
}

/// Where each word of `chars` begins and ends.
pub fn word_bounds(chars: &Vec<char>, blank: Blank) -> (bounds: Vec<(usize, usize)>)
    ensures
        pieces(chars@, bounds@) == words(chars@, blank),
        forall|k: int| 0 <= k < bounds@.len() ==> (#[trigger] bounds@[k]).0 <= bounds@[k].1 <= chars@.len(),
{
    let n: usize = chars.len();
    let mut bounds: Vec<(usize, usize)> = Vec::new();
    let mut i: usize = 0;
    loop
        invariant
            n == chars@.len(),
            0 <= i <= n,
            words(chars@, blank) == pieces(chars@, bounds@) + words_from(chars@, i as int, blank),
            forall|k: int| 0 <= k < bounds@.len() ==> (#[trigger] bounds@[k]).0 <= bounds@[k].1 <= n,
        ensures
            words(chars@, blank) == pieces(chars@, bounds@),
            forall|k: int| 0 <= k < bounds@.len() ==> (#[trigger] bounds@[k]).0 <= bounds@[k].1 <= n,
        decreases n - i,
    {
        let ghost start = i as int;
        let mut a: usize = i;
        while a < n && is_whitespace(chars[a], blank)
            invariant
                n == chars@.len(),
                start <= a <= n,
                skip_spaces(chars@, start, blank) == skip_spaces(chars@, a as int, blank),
            decreases n - a,
        {
            a += 1;
        }
        if a >= n {
            break ;
        }
        let mut b: usize = a;
        while b < n && !is_whitespace(chars[b], blank)
            invariant
                n == chars@.len(),
                a <= b <= n,
                a < n,
                word_end(chars@, a as int, blank) == word_end(chars@, b as int, blank),
            decreases n - b,
        {
            b += 1;
        }
        proof {
            lemma_word_end(chars@, a as int, blank);
            assert(pieces(chars@, bounds@.push((a, b))) =~= pieces(chars@, bounds@).push(
                chars@.subrange(a as int, b as int),
            ));
            assert(words(chars@, blank) =~= pieces(chars@, bounds@.push((a, b))) + words_from(
                chars@,
                b as int,
                blank,
            ));
        }
        bounds.push((a, b));
        i = b;
    }
    bounds
}

/// Strings as mathematical values.
pub open spec fn strings_view(strings: Seq<String>) -> Seq<Seq<char>> {
    Seq::new(strings.len(), |i: int| strings[i]@)
}

/// The words of `s`, each as a string of its own.
pub fn split_words(s: &str, blank: Blank) -> (out: Vec<String>)
    ensures
        strings_view(out@) == words(s@, blank),
{
    let chars = chars_of(s);
    let bounds = word_bounds(&chars, blank);
    let mut out: Vec<String> = Vec::new();
    let mut k: usize = 0;
    while k < bounds.len()
        invariant
            chars@ == s@,
            0 <= k <= bounds@.len(),
            pieces(chars@, bounds@) == words(s@, blank),
            forall|j: int| 0 <= j < bounds@.len() ==> (#[trigger] bounds@[j]).0 <= bounds@[j].1 <= s@.len(),
            strings_view(out@) == pieces(chars@, bounds@).take(k as int),
        decreases bounds@.len() - k,
    {
        let (a, b) = bounds[k];
        let word = s.substring_char(a, b).to_owned();
        proof {
            let all = pieces(chars@, bounds@);
            assert(word@ == all[k as int]);
            assert(strings_view(out@.push(word)) =~= strings_view(out@).push(word@));
            assert(all.take(k + 1) =~= all.take(k as int).push(all[k as int]));
        }
        out.push(word);
        k += 1;
    }
    assert(pieces(chars@, bounds@).take(k as int) =~= pieces(chars@, bounds@));
    out
}

/// Whether two strings hold the same characters.
pub fn str_eq(a: &str, b: &str) -> (r: bool)
    ensures
        r == (a@ == b@),
{
    let x = chars_of(a);
    let y = chars_of(b);
    if x.len() != y.len() {
        return false;
    }
    let mut i: usize = 0;
    while i < x.len()
        invariant
            x@ == a@,
            y@ == b@,
            x@.len() == y@.len(),
            0 <= i <= x@.len(),
            forall|j: int| 0 <= j < i ==> x@[j] == y@[j],
        decreases x@.len() - i,
    {
        if x[i] != y[i] {
            return false;
        }
        i += 1;
    }
    assert(x@ =~= y@);
    true
}

/// Whether `s` begins with `prefix`.
pub fn starts_with(s: &str, prefix: &str) -> (r: bool)
    ensures
        r == prefix@.is_prefix_of(s@),
{
    let x = chars_of(s);
    let y = chars_of(prefix);
    if y.len() > x.len() {
        return false;
    }
    let mut i: usize = 0;
    while i < y.len()
        invariant
            x@ == s@,
            y@ == prefix@,
            y@.len() <= x@.len(),
            0 <= i <= y@.len(),
            forall|j: int| 0 <= j < i ==> x@[j] == y@[j],
        decreases y@.len() - i,
    {
        if x[i] != y[i] {
            assert(x@.subrange(0, y@.len() as int)[i as int] != y@[i as int]);
            return false;
        }
        i += 1;
    }
    assert(y@ =~= x@.subrange(0, y@.len() as int));
    true
}

/// Whether `c` is one of the ten decimal digits.
pub open spec fn is_digit(c: char) -> bool {
    '0' <= c <= '9'
}

/// The number that the digit `c` stands for.
pub open spec fn digit_value(c: char) -> nat {
    (c as u32 - '0' as u32) as nat
}

/// The character that stands for the digit `d`.
pub open spec fn digit_char(d: nat) -> char {
    (d + '0' as u32) as char
}

/// Whether `s` is a non-empty run of decimal digits.
pub open spec fn is_decimal(s: Seq<char>) -> bool {
    s.len() > 0 && forall|i: int| 0 <= i < s.len() ==> is_digit(#[trigger] s[i])
}

/// The number that the digits of `s` write in base ten.
pub open spec fn decimal_value(s: Seq<char>) -> nat
    decreases s.len(),
{
    if s.len() == 0 {
        0
    } else {
        decimal_value(s.drop_last()) * 10 + digit_value(s.last())
    }
}

/// The digits that write `n` in base ten, without leading zeros.
pub open spec fn decimal_digits(n: nat) -> Seq<char>
    decreases n,
{
    if n < 10 {
        seq![digit_char(n)]
    } else {
        decimal_digits(n / 10).push(digit_char(n % 10))
    }
}

/// What a decimal word stands for as a 64-bit number: its value where it
/// is a run of digits whose value fits, and nothing otherwise.
pub open spec fn decimal_u64(s: Seq<char>) -> Option<u64> {
    if is_decimal(s) && decimal_value(s) <= u64::MAX {
        Some(decimal_value(s) as u64)
    } else {
        None
    }
}

/// The number that `s` writes in base ten with an optional sign `+` or
/// `-` in front; nothing where `s` is not a sign and digits, or digits,
/// alone.
pub open spec fn signed_value(s: Seq<char>) -> Option<int> {
    if s.len() > 0 && s[0] == '-' {
        if is_decimal(s.skip(1)) {
            Some(-(decimal_value(s.skip(1)) as int))
        } else {
            None
        }
    } else if s.len() > 0 && s[0] == '+' {
        if is_decimal(s.skip(1)) {
            Some(decimal_value(s.skip(1)) as int)
        } else {
            None
        }
    } else if is_decimal(s) {
        Some(decimal_value(s) as int)
    } else {
        None
    }
}

/// The number that `s` writes, where there is one between `lo` and `hi`.
pub open spec fn signed_in_range(s: Seq<char>, lo: int, hi: int) -> Option<int> {
    match signed_value(s) {
        Some(v) => if lo <= v <= hi {
            Some(v)
        } else {
            None
        },
        None => None,
    }
}

/// A run of digits is worth at least as much as any of its prefixes.
pub proof fn lemma_decimal_value_grows(s: Seq<char>, k: int)
    requires
        0 <= k <= s.len(),
    ensures
        decimal_value(s.take(k)) <= decimal_value(s),
    decreases s.len(),
{
    if k < s.len() {
        lemma_decimal_value_grows(s.drop_last(), k);
        assert(s.drop_last().take(k) =~= s.take(k));
    } else {
        assert(s.take(k) =~= s);
    }
}

/// Reading back the digits of a number gives the number.
pub proof fn lemma_decimal_round_trip(n: nat)
    ensures
        is_decimal(decimal_digits(n)),
        decimal_value(decimal_digits(n)) == n,
    decreases n,
{
    if n < 10 {
        let s = decimal_digits(n);
        assert(s.drop_last() =~= Seq::<char>::empty());
        assert(decimal_value(s.drop_last()) == 0);
    } else {
        lemma_decimal_round_trip(n / 10);
        let s = decimal_digits(n);
        assert(s.drop_last() =~= decimal_digits(n / 10));
    }
}

/// Reads a word as a decimal number of at most 64 bits.
pub fn parse_u64(word: &Vec<char>) -> (r: Option<u64>)
    ensures
        r == decimal_u64(word@),
{
    let n: usize = word.len();
    if n == 0 {
        return None;
    }
    let mut value: u64 = 0;
    let mut i: usize = 0;
    while i < n
        invariant
            n == word@.len(),
            0 <= i <= n,
            forall|j: int| 0 <= j < i ==> is_digit(#[trigger] word@[j]),
            value == decimal_value(word@.take(i as int)),
        decreases n - i,
    {
        let c: char = word[i];
        if !('0' <= c && c <= '9') {
            return None;
        }
        let d: u64 = (c as u32 - '0' as u32) as u64;
        proof {
            assert(word@.take(i + 1).drop_last() =~= word@.take(i as int));
            lemma_decimal_value_grows(word@, i + 1);
        }
        if value > (u64::MAX - d) / 10 {
            proof {
                assert(decimal_value(word@.take(i + 1)) > u64::MAX);
                if is_decimal(word@) {
                    assert(decimal_value(word@) > u64::MAX);
                }
            }
            return None;
        }
        value = value * 10 + d;
        i += 1;
    }
    proof {
        assert(word@.take(n as int) =~= word@);
    }
    Some(value)
}

/// Reads a word as a decimal number with an optional sign, where the
/// number lies between `lo` and `hi`.
pub fn parse_signed(word: &Vec<char>, lo: i64, hi: i64) -> (r: Option<i64>)
    ensures
        match r {
            Some(v) => signed_in_range(word@, lo as int, hi as int) == Some(v as int),
            None => signed_in_range(word@, lo as int, hi as int) is None,
        },
{
    let n: usize = word.len();
    let signed: bool = n > 0 && (word[0] == '-' || word[0] == '+');
    let negative: bool = n > 0 && word[0] == '-';
    let mut digits: Vec<char> = Vec::new();
    let mut i: usize = if signed {
        1
    } else {
        0
    };
    let ghost from = i as int;
    while i < n
        invariant
            n == word@.len(),
            0 <= from <= i <= n,
            digits@ == word@.subrange(from, i as int),
        decreases n - i,
    {
        digits.push(word[i]);
        assert(digits@ =~= word@.subrange(from, i + 1));
        i += 1;
    }
    proof {
        assert(word@.subrange(from, n as int) =~= word@.skip(from));
        assert(word@.skip(0) =~= word@);
    }
    match parse_u64(&digits) {
        Some(magnitude) => {
            if negative {
                if magnitude <= 0x8000_0000_0000_0000 {
                    let v: i128 = -(magnitude as i128);
                    if lo as i128 <= v && v <= hi as i128 {
                        Some(v as i64)
                    } else {
                        None
                    }
                } else {
                    None
                }
            } else if magnitude <= 0x7fff_ffff_ffff_ffff {
                let v: i64 = magnitude as i64;
                if lo <= v && v <= hi {
                    Some(v)
                } else {
                    None
                }
            } else {
                None
            }
        },
        None => None,
    }
}

/// The character `c` as a string. Calls `String::from`, of which the
/// standard library says that it gives a string of the single character.
#[verifier::external_body]
pub(crate) fn char_text(c: char) -> (text: String)
    ensures
        text@ == seq![c],
{
    String::from(c)
}

/// The digit `d` as a string of one character.
pub fn digit_str(d: u8) -> (r: &'static str)
    requires
        d < 10,
    ensures
        r@ == seq![digit_char(d as nat)],
{
    proof {
        reveal_strlit("0");
        reveal_strlit("1");
        reveal_strlit("2");
        reveal_strlit("3");
        reveal_strlit("4");
        reveal_strlit("5");
        reveal_strlit("6");
        reveal_strlit("7");
        reveal_strlit("8");
        reveal_strlit("9");
    }
    let r = match d {
        0 => "0",
        1 => "1",
        2 => "2",
        3 => "3",
        4 => "4",
        5 => "5",
        6 => "6",
        7 => "7",
        8 => "8",
        _ => "9",
    };
    assert(r@ =~= seq![digit_char(d as nat)]);
    r
}

/// Writes `n` in base ten, without leading zeros.
pub fn decimal_string(n: u128) -> (r: String)
    ensures
        r@ == decimal_digits(n as nat),
    decreases n,
{
    if n < 10 {
        digit_str(n as u8).to_owned()
    } else {
        let mut r = decimal_string(n / 10);
        r.append(digit_str((n % 10) as u8));
        r
    }
}

/// The text that writes `v` in base ten, with `-` in front where `v` is
/// below zero.
pub open spec fn signed_digits(v: int) -> Seq<char> {
    if v < 0 {
        seq!['-'] + decimal_digits((-v) as nat)
    } else {
        decimal_digits(v as nat)
    }
}

/// Writes `v` in base ten, with `-` in front where `v` is below zero.
pub fn signed_string(v: i64) -> (r: String)
    ensures
        r@ == signed_digits(v as int),
{
    if v < 0 {
        proof {
            reveal_strlit("-");
            assert("-"@ =~= seq!['-']);
        }
        let mut r = "-".to_owned();
        r.append(decimal_string((-(v as i128)) as u128).as_str());
        r
    } else {
        decimal_string(v as u128)
    }
}

/// A run of `n` blanks.
pub open spec fn blanks(n: nat) -> Seq<char> {
    Seq::new(n, |i: int| ' ')
}

/// A string of `n` blanks.
pub fn spaces(n: usize) -> (r: String)
    ensures
        r@ == blanks(n as nat),
{
    proof {
        reveal_strlit(" ");
    }
    let mut r = String::new();
    let mut i: usize = 0;
    while i < n
        invariant
            0 <= i <= n,
            r@ == blanks(i as nat),
            " "@ == seq![' '],
        decreases n - i,
    {
        r.append(" ");
        assert(r@ =~= blanks((i + 1) as nat));
        i += 1;
    }
    r
}

} // verus!
