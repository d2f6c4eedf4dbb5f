//! Text primitives over sequences of characters.
//!
//! Every declaration shape is recognised with a handful of operations on
//! lines: trimming, prefix and substring tests, splitting on a separator and
//! reading a decimal number. Each operation is defined here as a function on
//! `Seq<char>` and implemented on `&[char]`, sharing the storage of its input
//! wherever the result is a part of it.

use vstd::prelude::*;
use vstd::slice::slice_subrange;

verus! {

/// A set of characters that the trimming and splitting operations look for.
#[derive(Clone, Copy, Debug)]
pub enum CharClass {
    /// The characters with the Unicode property `White_Space`.
    Whitespace,
    /// One given character.
    Exactly(char),
}

/// Whether `c` has the Unicode property `White_Space`.
pub open spec fn is_whitespace(c: char) -> bool {
    let n = c as u32;
    ||| 0x09 <= n <= 0x0d
    ||| n == 0x20
    ||| n == 0x85
    ||| n == 0xa0
    ||| n == 0x1680
    ||| 0x2000 <= n <= 0x200a
    ||| n == 0x2028
    ||| n == 0x2029
    ||| n == 0x202f
    ||| n == 0x205f
    ||| n == 0x3000
}

impl CharClass {
    /// Whether `c` belongs to the class.
    pub open spec fn has(self, c: char) -> bool {
        match self {
            CharClass::Whitespace => is_whitespace(c),
            CharClass::Exactly(d) => c == d,
        }
    }

    /// Decides membership of `c`.
    pub fn contains(&self, c: char) -> (r: bool)
        ensures
            r == self.has(c),
    {
        match self {
            CharClass::Whitespace => {
                let n: u32 = c as u32;
                (0x09 <= n && n <= 0x0d) || n == 0x20 || n == 0x85 || n == 0xa0 || n == 0x1680
                    || (0x2000 <= n && n <= 0x200a) || n == 0x2028 || n == 0x2029 || n == 0x202f
                    || n == 0x205f || n == 0x3000
            },
            CharClass::Exactly(d) => c == *d,
        }
    }
}

/// The first index at or after `i` whose character is outside `class`, or
/// the length of `s` when there is none.
pub open spec fn skip_leading(s: Seq<char>, class: CharClass, i: int) -> int
    decreases s.len() - i,
{
    if 0 <= i < s.len() && class.has(s[i]) {
        skip_leading(s, class, i + 1)
    } else {
        i
    }
}

/// The end of the shortest prefix of `s[..j]` that reaches back to `lo` and
/// is followed only by characters of `class`.
pub open spec fn skip_trailing(s: Seq<char>, class: CharClass, lo: int, j: int) -> int
    decreases j - lo,
{
    if lo < j <= s.len() && class.has(s[j - 1]) {
        skip_trailing(s, class, lo, j - 1)
    } else {
        j
    }
}

/// `s` without its leading characters of `class`.
pub open spec fn trim_start_matches(s: Seq<char>, class: CharClass) -> Seq<char> {
    s.subrange(skip_leading(s, class, 0), s.len() as int)
}

/// `s` without its trailing characters of `class`.
pub open spec fn trim_end_matches(s: Seq<char>, class: CharClass) -> Seq<char> {
    s.subrange(0, skip_trailing(s, class, 0, s.len() as int))
}

/// `s` without its leading and trailing characters of `class`.
pub open spec fn trim_matches(s: Seq<char>, class: CharClass) -> Seq<char> {
    let a = skip_leading(s, class, 0);
    s.subrange(a, skip_trailing(s, class, a, s.len() as int))
}

/// `s` without leading and trailing whitespace.
pub open spec fn trim(s: Seq<char>) -> Seq<char> {
    trim_matches(s, CharClass::Whitespace)
}

/// What is cut off at the front is of the class, and what follows is not:
/// `skip_leading` stops at the first character outside the class.
pub proof fn lemma_skip_leading(s: Seq<char>, class: CharClass, i: int)
    requires
        0 <= i <= s.len(),
    ensures
        i <= skip_leading(s, class, i) <= s.len(),
        forall|k: int| i <= k < skip_leading(s, class, i) ==> class.has(#[trigger] s[k]),
        skip_leading(s, class, i) < s.len() ==> !class.has(s[skip_leading(s, class, i)]),
    decreases s.len() - i,
{
    if i < s.len() && class.has(s[i]) {
        lemma_skip_leading(s, class, i + 1);
    }
}

/// What is cut off at the end is of the class, and what stands before it is
/// not: `skip_trailing` stops behind the last character outside the class.
pub proof fn lemma_skip_trailing(s: Seq<char>, class: CharClass, lo: int, j: int)
    requires
        0 <= lo <= j <= s.len(),
    ensures
        lo <= skip_trailing(s, class, lo, j) <= j,
        forall|k: int| skip_trailing(s, class, lo, j) <= k < j ==> class.has(#[trigger] s[k]),
        skip_trailing(s, class, lo, j) > lo ==> !class.has(s[skip_trailing(s, class, lo, j) - 1]),
    decreases j - lo,
{
    if lo < j && class.has(s[j - 1]) {
        lemma_skip_trailing(s, class, lo, j - 1);
    }
}

/// A trimmed text neither begins nor ends with a character of the class.
pub proof fn lemma_trimmed(s: Seq<char>, class: CharClass)
    ensures
        trim_matches(s, class).len() > 0 ==> !class.has(trim_matches(s, class).first())
            && !class.has(trim_matches(s, class).last()),
        trim_matches(s, class).len() <= s.len(),
{
    let a = skip_leading(s, class, 0);
    lemma_skip_leading(s, class, 0);
    lemma_skip_trailing(s, class, a, s.len() as int);
}

fn leading(s: &[char], class: CharClass, from: usize) -> (a: usize)
    requires
        from <= s.len(),
    ensures
        a == skip_leading(s@, class, from as int),
        from <= a <= s.len(),
{
    let mut a: usize = from;
    while a < s.len() && class.contains(s[a])
        invariant
            from <= a <= s.len(),
            skip_leading(s@, class, from as int) == skip_leading(s@, class, a as int),
        decreases s.len() - a,
    {
        a += 1;
    }
    a
}

fn trailing(s: &[char], class: CharClass, lo: usize) -> (b: usize)
    requires
        lo <= s.len(),
    ensures
        b == skip_trailing(s@, class, lo as int, s.len() as int),
        lo <= b <= s.len(),
{
    let mut b: usize = s.len();
    while b > lo && class.contains(s[b - 1])
        invariant
            lo <= b <= s.len(),
            skip_trailing(s@, class, lo as int, s.len() as int) == skip_trailing(
                s@,
                class,
                lo as int,
                b as int,
            ),
        decreases b - lo,
    {
        b -= 1;
    }
    b
}

/// Removes the leading characters of `class`.
pub fn trim_start_of<'a>(s: &'a [char], class: CharClass) -> (r: &'a [char])
    ensures
        r@ == trim_start_matches(s@, class),
{
    let a = leading(s, class, 0);
    slice_subrange(s, a, s.len())
}

/// Removes the trailing characters of `class`.
pub fn trim_end_of<'a>(s: &'a [char], class: CharClass) -> (r: &'a [char])
    ensures
        r@ == trim_end_matches(s@, class),
{
    let b = trailing(s, class, 0);
    slice_subrange(s, 0, b)
}

/// Removes the characters of `class` from both ends.
pub fn trim_of<'a>(s: &'a [char], class: CharClass) -> (r: &'a [char])
    ensures
        r@ == trim_matches(s@, class),
{
    let a = leading(s, class, 0);
    let b = trailing(s, class, a);
    slice_subrange(s, a, b)
}

/// Removes whitespace from both ends.
pub fn trim_whitespace<'a>(s: &'a [char]) -> (r: &'a [char])
    ensures
        r@ == trim(s@),
{
    trim_of(s, CharClass::Whitespace)
}

/// Whether `p` stands in `s` at index `i`.
pub open spec fn occurs_at(s: Seq<char>, p: Seq<char>, i: int) -> bool {
    &&& 0 <= i
    &&& i + p.len() <= s.len()
    &&& s.subrange(i, i + p.len()) == p
}

/// Whether `s` begins with `p`.
pub open spec fn starts_with(s: Seq<char>, p: Seq<char>) -> bool {
    occurs_at(s, p, 0)
}

/// Whether `s` ends with `p`.
pub open spec fn ends_with(s: Seq<char>, p: Seq<char>) -> bool {
    occurs_at(s, p, s.len() - p.len())
}

/// Whether `s` begins with the character `c`.
pub open spec fn first_is(s: Seq<char>, c: char) -> bool {
    s.len() > 0 && s[0] == c
}

/// Whether `s` ends with the character `c`.
pub open spec fn last_is(s: Seq<char>, c: char) -> bool {
    s.len() > 0 && s[s.len() - 1] == c
}

/// The first index at or after `from` where `p` stands in `s`.
pub open spec fn find_from(s: Seq<char>, p: Seq<char>, from: int) -> Option<int>
    decreases s.len() + 1 - from,
{
    if from < 0 || from + p.len() > s.len() {
        None
    } else if occurs_at(s, p, from) {
        Some(from)
    } else {
        find_from(s, p, from + 1)
    }
}

/// The first index where `p` stands in `s`.
pub open spec fn find(s: Seq<char>, p: Seq<char>) -> Option<int> {
    find_from(s, p, 0)
}

/// Whether `p` stands somewhere in `s`.
pub open spec fn contains(s: Seq<char>, p: Seq<char>) -> bool {
    find(s, p) is Some
}

/// The first index at or after `from` that holds `c`.
pub open spec fn index_from(s: Seq<char>, c: char, from: int) -> Option<int>
    decreases s.len() - from,
{
    if from < 0 || from >= s.len() {
        None
    } else if s[from] == c {
        Some(from)
    } else {
        index_from(s, c, from + 1)
    }
}

/// The first index that holds `c`.
pub open spec fn index_of(s: Seq<char>, c: char) -> Option<int> {
    index_from(s, c, 0)
}

/// Whether `c` occurs in `s`.
pub open spec fn contains_char(s: Seq<char>, c: char) -> bool {
    index_of(s, c) is Some
}

/// What `find_from` returns is the first occurrence at or after `from`.
pub proof fn lemma_find_from(s: Seq<char>, p: Seq<char>, from: int)
    requires
        0 <= from,
    ensures
        match find_from(s, p, from) {
            Some(i) => from <= i && occurs_at(s, p, i) && forall|j: int|
                from <= j < i ==> !occurs_at(s, p, j),
            None => forall|j: int| from <= j ==> !occurs_at(s, p, j),
        },
    decreases s.len() + 1 - from,
{
    if from + p.len() <= s.len() && !occurs_at(s, p, from) {
        lemma_find_from(s, p, from + 1);
    }
}

/// What `index_from` returns is the first index at or after `from` that
/// holds `c`.
pub proof fn lemma_index_from(s: Seq<char>, c: char, from: int)
    requires
        0 <= from,
    ensures
        match index_from(s, c, from) {
            Some(i) => from <= i < s.len() && s[i] == c && forall|j: int|
                from <= j < i ==> s[j] != c,
            None => forall|j: int| from <= j < s.len() ==> s[j] != c,
        },
    decreases s.len() - from,
{
    if from < s.len() && s[from] != c {
        lemma_index_from(s, c, from + 1);
    }
}

/// Decides whether `p` stands in `s` at index `i`.
pub fn matches_at(s: &[char], p: &[char], i: usize) -> (r: bool)
    ensures
        r == occurs_at(s@, p@, i as int),
{
    if p.len() > s.len() || i > s.len() - p.len() {
        return false;
    }
    let mut k: usize = 0;
    while k < p.len()
        invariant
            k <= p.len(),
            i + p.len() <= s.len(),
            forall|j: int| 0 <= j < k ==> s@[i + j] == p@[j],
        decreases p.len() - k,
    {
        if s[i + k] != p[k] {
            assert(s@.subrange(i as int, i + p.len())[k as int] != p@[k as int]);
            return false;
        }
        k += 1;
    }
    assert(s@.subrange(i as int, i + p.len()) =~= p@);
    true
}

/// Decides whether `s` begins with `p`.
pub fn has_prefix(s: &[char], p: &[char]) -> (r: bool)
    ensures
        r == starts_with(s@, p@),
{
    matches_at(s, p, 0)
}

/// Decides whether `s` ends with `p`.
pub fn has_suffix(s: &[char], p: &[char]) -> (r: bool)
    ensures
        r == ends_with(s@, p@),
{
    if p.len() > s.len() {
        return false;
    }
    matches_at(s, p, s.len() - p.len())
}

/// Decides whether `s` begins with the character `c`.
pub fn begins_with_char(s: &[char], c: char) -> (r: bool)
    ensures
        r == first_is(s@, c),
{
    s.len() > 0 && s[0] == c
}

/// Decides whether `s` ends with the character `c`.
pub fn ends_with_char(s: &[char], c: char) -> (r: bool)
    ensures
        r == last_is(s@, c),
{
    s.len() > 0 && s[s.len() - 1] == c
}

/// Finds the first index at or after `from` where `p` stands in `s`.
pub fn position_from(s: &[char], p: &[char], from: usize) -> (r: Option<usize>)
    ensures
        match r {
            Some(i) => find_from(s@, p@, from as int) == Some(i as int) && from <= i
                && i + p.len() <= s.len(),
            None => find_from(s@, p@, from as int) is None,
        },
{
    if p.len() > s.len() {
        return None;
    }
    let last: usize = s.len() - p.len();
    let mut i: usize = from;
    while i <= last
        invariant
            from <= i,
            last == s.len() - p.len(),
            find_from(s@, p@, from as int) == find_from(s@, p@, i as int),
        decreases last + 1 - i,
    {
        if matches_at(s, p, i) {
            return Some(i);
        }
        if i == last {
            assert(find_from(s@, p@, i + 1) is None);
            return None;
        }
        i += 1;
    }
    None
}

/// Finds the first index where `p` stands in `s`.
pub fn position(s: &[char], p: &[char]) -> (r: Option<usize>)
    ensures
        match r {
            Some(i) => find(s@, p@) == Some(i as int) && i + p.len() <= s.len(),
            None => find(s@, p@) is None,
        },
{
    position_from(s, p, 0)
}

/// Decides whether `p` stands somewhere in `s`.
pub fn has_infix(s: &[char], p: &[char]) -> (r: bool)
    ensures
        r == contains(s@, p@),
{
    position(s, p).is_some()
}

/// Finds the first index at or after `from` that holds `c`.
pub fn char_position_from(s: &[char], c: char, from: usize) -> (r: Option<usize>)
    ensures
        match r {
            Some(i) => index_from(s@, c, from as int) == Some(i as int) && from <= i < s.len(),
            None => index_from(s@, c, from as int) is None,
        },
{
    let mut i: usize = from;
    while i < s.len()
        invariant
            from <= i,
            index_from(s@, c, from as int) == index_from(s@, c, i as int),
        decreases s.len() - i,
    {
        if s[i] == c {
            return Some(i);
        }
        i += 1;
    }
    None
}

/// Finds the first index that holds `c`.
pub fn char_position(s: &[char], c: char) -> (r: Option<usize>)
    ensures
        match r {
            Some(i) => index_of(s@, c) == Some(i as int) && i < s.len(),
            None => index_of(s@, c) is None,
        },
{
    char_position_from(s, c, 0)
}

/// Decides whether `c` occurs in `s`.
pub fn has_char(s: &[char], c: char) -> (r: bool)
    ensures
        r == contains_char(s@, c),
{
    char_position(s, c).is_some()
}

/// The pieces of `s[start..]` between occurrences of `sep`, where the scan
/// has reached index `i` and the current piece began at `start`.
pub open spec fn split_scan(s: Seq<char>, sep: char, start: int, i: int) -> Seq<Seq<char>>
    decreases s.len() - i,
{
    if i < 0 || i >= s.len() {
        seq![s.subrange(start, s.len() as int)]
    } else if s[i] == sep {
        seq![s.subrange(start, i)] + split_scan(s, sep, i + 1, i + 1)
    } else {
        split_scan(s, sep, start, i + 1)
    }
}

/// The pieces of `s` between occurrences of `sep`: one more than `sep`
/// occurs, empty pieces included.
pub open spec fn split(s: Seq<char>, sep: char) -> Seq<Seq<char>> {
    split_scan(s, sep, 0, 0)
}

/// The pieces put together again, with `sep` between each two.
pub open spec fn join(pieces: Seq<Seq<char>>, sep: char) -> Seq<char>
    decreases pieces.len(),
{
    if pieces.len() == 0 {
        Seq::empty()
    } else if pieces.len() == 1 {
        pieces[0]
    } else {
        pieces[0] + seq![sep] + join(pieces.drop_first(), sep)
    }
}

/// Whether no character of `s` is of the class.
pub open spec fn is_free_of(s: Seq<char>, class: CharClass) -> bool {
    forall|j: int| 0 <= j < s.len() ==> !class.has(#[trigger] s[j])
}

/// A part of a text that is free of a class is still free of it with one
/// more character that is not of the class.
proof fn lemma_free_of_grows(s: Seq<char>, class: CharClass, start: int, i: int)
    requires
        0 <= start <= i < s.len(),
        is_free_of(s.subrange(start, i), class),
        !class.has(s[i]),
    ensures
        is_free_of(s.subrange(start, i + 1), class),
{
    let longer = s.subrange(start, i + 1);
    assert forall|j: int| 0 <= j < longer.len() implies !class.has(#[trigger] longer[j]) by {
        if j < i - start {
            assert(s.subrange(start, i)[j] == s[start + j]);
        }
    }
}

/// What a scan yields from a piece that holds no separator so far: at least
/// one piece, no piece with a separator in it, and pieces that make up the
/// rest of the text when they are joined by the separator.
pub proof fn lemma_split_scan(s: Seq<char>, sep: char, start: int, i: int)
    requires
        0 <= start <= i <= s.len(),
        is_free_of(s.subrange(start, i), CharClass::Exactly(sep)),
    ensures
        split_scan(s, sep, start, i).len() >= 1,
        forall|k: int|
            0 <= k < split_scan(s, sep, start, i).len() ==> is_free_of(
                #[trigger] split_scan(s, sep, start, i)[k],
                CharClass::Exactly(sep),
            ),
        join(split_scan(s, sep, start, i), sep) == s.subrange(start, s.len() as int),
    decreases s.len() - i,
{
    let class = CharClass::Exactly(sep);
    let all = split_scan(s, sep, start, i);
    if i >= s.len() {
        assert(s.subrange(start, i) == s.subrange(start, s.len() as int));
    } else if s[i] == sep {
        let piece = s.subrange(start, i);
        let rest = split_scan(s, sep, i + 1, i + 1);
        assert(is_free_of(s.subrange(i + 1, i + 1), class));
        lemma_split_scan(s, sep, i + 1, i + 1);
        assert(all == seq![piece] + rest);
        assert(all.drop_first() =~= rest);
        assert(all[0] == piece);
        assert(piece + seq![sep] + s.subrange(i + 1, s.len() as int) =~= s.subrange(
            start,
            s.len() as int,
        ));
        assert forall|k: int| 0 <= k < all.len() implies is_free_of(#[trigger] all[k], class) by {
            if k > 0 {
                assert(all[k] == rest[k - 1]);
            }
        }
    } else {
        lemma_free_of_grows(s, class, start, i);
        lemma_split_scan(s, sep, start, i + 1);
    }
}

/// A text is split into at least one piece, no piece holds the separator,
/// and the pieces joined by the separator are the text.
pub proof fn lemma_split(s: Seq<char>, sep: char)
    ensures
        split(s, sep).len() >= 1,
        forall|k: int|
            0 <= k < split(s, sep).len() ==> is_free_of(
                #[trigger] split(s, sep)[k],
                CharClass::Exactly(sep),
            ),
        join(split(s, sep), sep) == s,
{
    assert(is_free_of(s.subrange(0, 0), CharClass::Exactly(sep)));
    lemma_split_scan(s, sep, 0, 0);
    assert(s.subrange(0, s.len() as int) =~= s);
}

/// What a scan yields from a word that holds no whitespace so far: words
/// that are not empty and hold no whitespace.
pub proof fn lemma_words_scan(s: Seq<char>, start: int, i: int)
    requires
        0 <= start <= i <= s.len(),
        is_free_of(s.subrange(start, i), CharClass::Whitespace),
    ensures
        forall|k: int|
            0 <= k < words_scan(s, start, i).len() ==> (#[trigger] words_scan(s, start, i)[k]).len()
                > 0 && is_free_of(words_scan(s, start, i)[k], CharClass::Whitespace),
    decreases s.len() - i,
{
    let class = CharClass::Whitespace;
    let all = words_scan(s, start, i);
    if i >= s.len() {
        assert(s.subrange(start, i) == s.subrange(start, s.len() as int));
        if start < s.len() {
            assert(all =~= seq![s.subrange(start, s.len() as int)]);
        }
    } else if is_whitespace(s[i]) {
        let rest = words_scan(s, i + 1, i + 1);
        assert(is_free_of(s.subrange(i + 1, i + 1), class));
        lemma_words_scan(s, i + 1, i + 1);
        if start < i {
            assert(all == seq![s.subrange(start, i)] + rest);
            assert forall|k: int| 0 <= k < all.len() implies (#[trigger] all[k]).len() > 0
                && is_free_of(all[k], class) by {
                if k > 0 {
                    assert(all[k] == rest[k - 1]);
                }
            }
        } else {
            assert(all == rest);
        }
    } else {
        lemma_free_of_grows(s, class, start, i);
        lemma_words_scan(s, start, i + 1);
        assert(all == words_scan(s, start, i + 1));
    }
}

/// No word is empty, and no word holds whitespace.
pub proof fn lemma_words(s: Seq<char>)
    ensures
        forall|k: int|
            0 <= k < words(s).len() ==> (#[trigger] words(s)[k]).len() > 0 && is_free_of(
                words(s)[k],
                CharClass::Whitespace,
            ),
{
    assert(is_free_of(s.subrange(0, 0), CharClass::Whitespace));
    lemma_words_scan(s, 0, 0);
}

/// What a scan yields from a line that holds no line feed so far: lines
/// without a line feed.
pub proof fn lemma_lines_scan(s: Seq<char>, start: int, i: int)
    requires
        0 <= start <= i <= s.len(),
        is_free_of(s.subrange(start, i), CharClass::Exactly('\n')),
    ensures
        forall|k: int|
            0 <= k < lines_scan(s, start, i).len() ==> is_free_of(
                #[trigger] lines_scan(s, start, i)[k],
                CharClass::Exactly('\n'),
            ),
    decreases s.len() - i,
{
    let class = CharClass::Exactly('\n');
    let all = lines_scan(s, start, i);
    if i >= s.len() {
        assert(s.subrange(start, i) == s.subrange(start, s.len() as int));
        if start < s.len() {
            assert(all =~= seq![s.subrange(start, s.len() as int)]);
        }
    } else if s[i] == '\n' {
        let piece = s.subrange(start, i);
        let rest = lines_scan(s, i + 1, i + 1);
        assert(is_free_of(s.subrange(i + 1, i + 1), class));
        lemma_lines_scan(s, i + 1, i + 1);
        assert(all == seq![strip_carriage_return(piece)] + rest);
        assert(is_free_of(strip_carriage_return(piece), class)) by {
            let stripped = strip_carriage_return(piece);
            assert forall|j: int| 0 <= j < stripped.len() implies !class.has(
                #[trigger] stripped[j],
            ) by {
                assert(stripped[j] == piece[j]);
            }
        }
        assert forall|k: int| 0 <= k < all.len() implies is_free_of(#[trigger] all[k], class) by {
            if k > 0 {
                assert(all[k] == rest[k - 1]);
            }
        }
    } else {
        lemma_free_of_grows(s, class, start, i);
        lemma_lines_scan(s, start, i + 1);
        assert(all == lines_scan(s, start, i + 1));
    }
}

/// No line holds a line feed.
pub proof fn lemma_lines(s: Seq<char>)
    ensures
        forall|k: int|
            0 <= k < lines(s).len() ==> is_free_of(#[trigger] lines(s)[k], CharClass::Exactly('\n')),
{
    assert(is_free_of(s.subrange(0, 0), CharClass::Exactly('\n')));
    lemma_lines_scan(s, 0, 0);
}

/// A line as it ends before a line feed: without one carriage return at its
/// end.
pub open spec fn strip_carriage_return(line: Seq<char>) -> Seq<char> {
    if line.len() > 0 && line.last() == '\r' {
        line.drop_last()
    } else {
        line
    }
}

/// The lines of `s[start..]`, where the scan has reached index `i` and the
/// current line began at `start`.
pub open spec fn lines_scan(s: Seq<char>, start: int, i: int) -> Seq<Seq<char>>
    decreases s.len() - i,
{
    if i < 0 || i >= s.len() {
        if start < s.len() {
            seq![s.subrange(start, s.len() as int)]
        } else {
            seq![]
        }
    } else if s[i] == '\n' {
        seq![strip_carriage_return(s.subrange(start, i))] + lines_scan(s, i + 1, i + 1)
    } else {
        lines_scan(s, start, i + 1)
    }
}

/// The lines of `s`. A line ends at a line feed, or at a carriage return
/// directly followed by one; neither belongs to the line. The last line need
/// not be ended, and a text that ends with a line ending has no empty line
/// after it.
pub open spec fn lines(s: Seq<char>) -> Seq<Seq<char>> {
    lines_scan(s, 0, 0)
}

/// The words of `s[start..]`, where the scan has reached index `i` and the
/// current word, if any, began at `start`.
pub open spec fn words_scan(s: Seq<char>, start: int, i: int) -> Seq<Seq<char>>
    decreases s.len() - i,
{
    if i < 0 || i >= s.len() {
        if start < s.len() {
            seq![s.subrange(start, s.len() as int)]
        } else {
            seq![]
        }
    } else if is_whitespace(s[i]) {
        if start < i {
            seq![s.subrange(start, i)] + words_scan(s, i + 1, i + 1)
        } else {
            words_scan(s, i + 1, i + 1)
        }
    } else {
        words_scan(s, start, i + 1)
    }
}

/// The maximal runs of non-whitespace characters of `s`, in order.
pub open spec fn words(s: Seq<char>) -> Seq<Seq<char>> {
    words_scan(s, 0, 0)
}

/// The texts that a vector of slices stands for.
pub open spec fn views(parts: Seq<&[char]>) -> Seq<Seq<char>> {
    Seq::new(parts.len(), |i: int| parts[i]@)
}

/// Splits `s` at every occurrence of `sep`.
pub fn split_on<'a>(s: &'a [char], sep: char) -> (parts: Vec<&'a [char]>)
    ensures
        views(parts@) == split(s@, sep),
        parts.len() >= 1,
{
    let mut parts: Vec<&'a [char]> = Vec::new();
    let mut start: usize = 0;
    let mut i: usize = 0;
    while i < s.len()
        invariant
            start <= i <= s.len(),
            split(s@, sep) == views(parts@) + split_scan(s@, sep, start as int, i as int),
        decreases s.len() - i,
    {
        if s[i] == sep {
            let ghost before = views(parts@);
            parts.push(slice_subrange(s, start, i));
            assert(views(parts@) =~= before + seq![s@.subrange(start as int, i as int)]);
            start = i + 1;
        }
        i += 1;
    }
    let ghost before = views(parts@);
    parts.push(slice_subrange(s, start, s.len()));
    assert(views(parts@) =~= before + seq![s@.subrange(start as int, s.len() as int)]);
    parts
}

/// Splits `s` into its lines.
pub fn split_lines<'a>(s: &'a [char]) -> (parts: Vec<&'a [char]>)
    ensures
        views(parts@) == lines(s@),
{
    let mut parts: Vec<&'a [char]> = Vec::new();
    let mut start: usize = 0;
    let mut i: usize = 0;
    while i < s.len()
        invariant
            start <= i <= s.len(),
            lines(s@) == views(parts@) + lines_scan(s@, start as int, i as int),
        decreases s.len() - i,
    {
        if s[i] == '\n' {
            let ghost before = views(parts@);
            let end: usize = if i > start && s[i - 1] == '\r' {
                i - 1
            } else {
                i
            };
            parts.push(slice_subrange(s, start, end));
            assert(s@.subrange(start as int, end as int) =~= strip_carriage_return(
                s@.subrange(start as int, i as int),
            ));
            assert(views(parts@) =~= before + seq![s@.subrange(start as int, end as int)]);
            start = i + 1;
        }
        i += 1;
    }
    if start < s.len() {
        let ghost before = views(parts@);
        parts.push(slice_subrange(s, start, s.len()));
        assert(views(parts@) =~= before + seq![s@.subrange(start as int, s.len() as int)]);
    }
    parts
}

/// Splits `s` into its words.
pub fn split_words<'a>(s: &'a [char]) -> (parts: Vec<&'a [char]>)
    ensures
        views(parts@) == words(s@),
{
    let mut parts: Vec<&'a [char]> = Vec::new();
    let mut start: usize = 0;
    let mut i: usize = 0;
    while i < s.len()
        invariant
            start <= i <= s.len(),
            words(s@) == views(parts@) + words_scan(s@, start as int, i as int),
        decreases s.len() - i,
    {
        if CharClass::Whitespace.contains(s[i]) {
            if start < i {
                let ghost before = views(parts@);
                parts.push(slice_subrange(s, start, i));
                assert(views(parts@) =~= before + seq![s@.subrange(start as int, i as int)]);
            }
            start = i + 1;
        }
        i += 1;
    }
    if start < s.len() {
        let ghost before = views(parts@);
        parts.push(slice_subrange(s, start, s.len()));
        assert(views(parts@) =~= before + seq![s@.subrange(start as int, s.len() as int)]);
    }
    parts
}

/// Whether `c` is one of the ten decimal digits.
pub open spec fn is_digit(c: char) -> bool {
    0x30 <= c as u32 <= 0x39
}

/// The number that the decimal digit `c` stands for.
pub open spec fn digit_value(c: char) -> nat {
    (c as u32 - 0x30) as nat
}

/// Whether `s` holds decimal digits only.
pub open spec fn all_digits(s: Seq<char>) -> bool {
    forall|i: int| 0 <= i < s.len() ==> is_digit(#[trigger] s[i])
}

/// The number that the first `n` characters of `s` spell in base ten.
pub open spec fn digits_value(s: Seq<char>, n: int) -> nat
    decreases n,
{
    if n <= 0 {
        0
    } else {
        digits_value(s, n - 1) * 10 + digit_value(s[n - 1])
    }
}

/// `s` without one leading plus sign.
pub open spec fn without_sign(s: Seq<char>) -> Seq<char> {
    if s.len() > 0 && s[0] == '+' {
        s.drop_first()
    } else {
        s
    }
}

/// The number that `s` spells, if it is an optional plus sign followed by at
/// least one decimal digit and nothing else, and the number is at most `max`.
pub open spec fn parse_number(s: Seq<char>, max: nat) -> Option<nat> {
    let d = without_sign(s);
    if d.len() > 0 && all_digits(d) && digits_value(d, d.len() as int) <= max {
        Some(digits_value(d, d.len() as int))
    } else {
        None
    }
}

/// The character of the decimal digit `d`.
pub open spec fn digit_char(d: nat) -> char {
    ((0x30 + d) as u8) as char
}

/// `n` written in base ten, without leading zeros.
pub open spec fn decimal(n: nat) -> Seq<char>
    decreases n,
{
    if n < 10 {
        seq![digit_char(n)]
    } else {
        decimal(n / 10).push(digit_char(n % 10))
    }
}

/// The digits of a number spell that number: what `decimal` writes,
/// `parse_number` reads back.
pub proof fn lemma_decimal_is_read_back(n: nat, max: nat)
    requires
        n <= max,
    ensures
        parse_number(decimal(n), max) == Some(n),
{
    lemma_decimal_spells(n);
    let d = decimal(n);
    assert(is_digit(d[0]));
    assert(without_sign(d) == d);
}

/// `decimal` writes digits only, at least one, and they spell the number.
pub proof fn lemma_decimal_spells(n: nat)
    ensures
        decimal(n).len() > 0,
        all_digits(decimal(n)),
        digits_value(decimal(n), decimal(n).len() as int) == n,
    decreases n,
{
    if n < 10 {
        let d = decimal(n);
        assert(d.len() == 1);
        assert(digits_value(d, 1) == digits_value(d, 0) * 10 + digit_value(d[0]));
    } else {
        lemma_decimal_spells(n / 10);
        let before = decimal(n / 10);
        let d = decimal(n);
        assert(d == before.push(digit_char(n % 10)));
        assert forall|i: int| 0 <= i < d.len() implies is_digit(#[trigger] d[i]) by {
            if i < before.len() {
                assert(d[i] == before[i]);
            }
        }
        lemma_digits_value_of_prefix(d, before, before.len() as int);
        assert(digits_value(d, d.len() as int) == digits_value(d, before.len() as int) * 10
            + digit_value(d[before.len() as int]));
    }
}

/// The number that a prefix spells does not depend on what follows it.
pub proof fn lemma_digits_value_of_prefix(s: Seq<char>, t: Seq<char>, n: int)
    requires
        0 <= n <= s.len(),
        n <= t.len(),
        forall|i: int| 0 <= i < n ==> s[i] == t[i],
    ensures
        digits_value(s, n) == digits_value(t, n),
    decreases n,
{
    if n > 0 {
        lemma_digits_value_of_prefix(s, t, n - 1);
    }
}

/// A longer prefix of digits spells no smaller a number.
pub proof fn lemma_digits_value_grows(s: Seq<char>, k: int, n: int)
    requires
        k <= n,
    ensures
        digits_value(s, k) <= digits_value(s, n),
    decreases n - k,
{
    if k < n {
        lemma_digits_value_grows(s, k, n - 1);
    }
}

/// Reads `s` as a decimal number of at most `max`.
pub fn parse_bounded(s: &[char], max: u32) -> (r: Option<u32>)
    ensures
        match r {
            Some(v) => parse_number(s@, max as nat) == Some(v as nat),
            None => parse_number(s@, max as nat) is None,
        },
{
    let d: &[char] = if s.len() > 0 && s[0] == '+' {
        slice_subrange(s, 1, s.len())
    } else {
        s
    };
    assert(d@ =~= without_sign(s@));
    if d.len() == 0 {
        return None;
    }
    let mut acc: u64 = 0;
    let mut i: usize = 0;
    while i < d.len()
        invariant
            i <= d.len(),
            d@ == without_sign(s@),
            acc == digits_value(d@, i as int),
            acc <= max,
            forall|j: int| 0 <= j < i ==> is_digit(#[trigger] d@[j]),
        decreases d.len() - i,
    {
        let n: u32 = d[i] as u32;
        if n < 0x30 || n > 0x39 {
            assert(!is_digit(d@[i as int]));
            return None;
        }
        acc = acc * 10 + (n - 0x30) as u64;
        if acc > max as u64 {
            proof {
                lemma_digits_value_grows(d@, i + 1, d.len() as int);
            }
            return None;
        }
        i += 1;
    }
    Some(acc as u32)
}

/// Reads `s` as a decimal number that fits 32 bits.
pub fn parse_u32(s: &[char]) -> (r: Option<u32>)
    ensures
        match r {
            Some(v) => parse_number(s@, 0xffff_ffff) == Some(v as nat),
            None => parse_number(s@, 0xffff_ffff) is None,
        },
{
    parse_bounded(s, 0xffff_ffff)
}

/// Reads `s` as a decimal number that fits one byte.
pub fn parse_u8(s: &[char]) -> (r: Option<u8>)
    ensures
        match r {
            Some(v) => parse_number(s@, 255) == Some(v as nat),
            None => parse_number(s@, 255) is None,
        },
{
    match parse_bounded(s, 255) {
        Some(v) => Some(v as u8),
        None => None,
    }
}

/// Appends `ch` to the string; this is what the standard library documents
/// of `String::push`.
pub assume_specification[ String::push ](s: &mut String, ch: char)
    ensures
        final(s)@ == old(s)@.push(ch),
;

/// Appends `n` in base ten to `out`.
pub fn push_decimal(out: &mut String, n: u64)
    ensures
        final(out)@ == old(out)@ + decimal(n as nat),
    decreases n,
{
    if n >= 10 {
        push_decimal(out, n / 10);
    }
    let d: u8 = (n % 10) as u8;
    out.push((0x30 + d) as char);
    assert(final(out)@ =~= old(out)@ + decimal(n as nat));
}

/// Appends the characters of `s` to `out`.
pub fn push_chars(out: &mut String, s: &[char])
    ensures
        final(out)@ == old(out)@ + s@,
{
    let mut i: usize = 0;
    while i < s.len()
        invariant
            i <= s.len(),
            out@ == old(out)@ + s@.subrange(0, i as int),
        decreases s.len() - i,
    {
        out.push(s[i]);
        assert(s@.subrange(0, i + 1) =~= s@.subrange(0, i as int).push(s@[i as int]));
        i += 1;
    }
    assert(s@.subrange(0, s.len() as int) =~= s@);
}

/// The characters of `s` as an owned string.
pub fn string_of(s: &[char]) -> (out: String)
    ensures
        out@ == s@,
{
    let mut out = String::new();
    push_chars(&mut out, s);
    out
}

/// The characters of `s` as a vector.
pub fn chars_of(s: &str) -> (out: Vec<char>)
    ensures
        out@ == s@,
{
    let mut out: Vec<char> = Vec::new();
    for c in it: s.chars()
        invariant
            it.seq() == s@,
            out@ == s@.take(it.index() as int),
    {
        out.push(c);
    }
    out
}

/// Decides whether `a` and `b` hold the same characters.
pub fn same_text(a: &[char], b: &[char]) -> (r: bool)
    ensures
        r == (a@ == b@),
{
    if a.len() != b.len() {
        return false;
    }
    let r = matches_at(a, b, 0);
    assert(a@.subrange(0, a.len() as int) =~= a@);
    r
}

} // verus!
