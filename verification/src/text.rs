//! Text as character sequences: trimming and searching.

use vstd::prelude::*;
use vstd::string::*;
use crate::store_spec::StoreError;

verus! {

/// Whether `c` counts as white space: whether it has the Unicode property
/// White_Space. These are the controls U+0009 to U+000D and U+0085, the
/// space U+0020, the no-break spaces U+00A0 and U+202F, U+1680, the spaces
/// U+2000 to U+200A, the line and paragraph separators U+2028 and U+2029,
/// U+205F and the ideographic space U+3000.
pub open spec fn is_whitespace(c: char) -> bool {
    let n = c as u32;
    ||| 0x0009 <= n <= 0x000D
    ||| n == 0x0020
    ||| n == 0x0085
    ||| n == 0x00A0
    ||| n == 0x1680
    ||| 0x2000 <= n <= 0x200A
    ||| n == 0x2028
    ||| n == 0x2029
    ||| n == 0x202F
    ||| n == 0x205F
    ||| n == 0x3000
}

/// Calls `char::is_whitespace`, which answers whether the character has
/// the Unicode property White_Space. That its answer is the one that
/// `is_whitespace` spells out is not proved.
#[verifier::external_body]
fn char_is_whitespace(c: char) -> (answer: bool)
    ensures
        answer == is_whitespace(c),
{
    c.is_whitespace()
}

/// `s` without its leading white space.
pub open spec fn trim_start(s: Seq<char>) -> Seq<char>
    decreases s.len(),
{
    if s.len() > 0 && is_whitespace(s[0]) {
        trim_start(s.drop_first())
    } else {
        s
    }
}

/// `s` without its trailing white space.
pub open spec fn trim_end(s: Seq<char>) -> Seq<char>
    decreases s.len(),
{
    if s.len() > 0 && is_whitespace(s.last()) {
        trim_end(s.drop_last())
    } else {
        s
    }
}

/// `s` without its leading and trailing white space.
pub open spec fn trim(s: Seq<char>) -> Seq<char> {
    trim_end(trim_start(s))
}

/// `n` is where `c` first occurs in `s`, or the length of `s` if it does
/// not occur.
pub open spec fn is_first_index_of(s: Seq<char>, c: char, n: int) -> bool {
    &&& 0 <= n <= s.len()
    &&& n < s.len() ==> s[n] == c
    &&& forall|i: int| 0 <= i < n ==> s[i] != c
}

/// Where `c` first occurs in `s`, or the length of `s` if it does not
/// occur.
pub open spec fn first_index_of(s: Seq<char>, c: char) -> int {
    choose|n: int| is_first_index_of(s, c, n)
}

/// There is one first occurrence only.
pub proof fn lemma_first_index_of(s: Seq<char>, c: char, n: int)
    requires
        is_first_index_of(s, c, n),
    ensures
        first_index_of(s, c) == n,
{
    let m = first_index_of(s, c);
    assert(is_first_index_of(s, c, m));
    if m < n {
        assert(s[m] != c);
    } else if n < m {
        assert(s[n] != c);
    }
}

/// Searching on from `from`, before which `c` does not occur, reaches the
/// first occurrence of `c` or the end.
proof fn lemma_first_index_search(s: Seq<char>, c: char, from: int)
    requires
        0 <= from <= s.len(),
        forall|i: int| 0 <= i < from ==> s[i] != c,
    ensures
        exists|n: int| is_first_index_of(s, c, n),
    decreases s.len() - from,
{
    if from < s.len() && s[from] != c {
        lemma_first_index_search(s, c, from + 1);
    } else {
        assert(is_first_index_of(s, c, from));
    }
}

/// `first_index_of` is where `c` first occurs, or the length: it is within
/// the sequence exactly when `c` occurs at all.
pub proof fn lemma_first_index(s: Seq<char>, c: char)
    ensures
        is_first_index_of(s, c, first_index_of(s, c)),
        first_index_of(s, c) < s.len() <==> s.contains(c),
{
    lemma_first_index_search(s, c, 0);
    let n = first_index_of(s, c);
    if s.contains(c) {
        let i = choose|i: int| 0 <= i < s.len() && s[i] == c;
        if n >= s.len() {
            assert(s[i] != c);
        }
    }
}

/// Where the text without its leading white space starts.
pub open spec fn trim_from(s: Seq<char>) -> int {
    s.len() - trim_start(s).len()
}

/// Where the trimmed text ends.
pub open spec fn trim_to(s: Seq<char>) -> int {
    trim_from(s) + trim(s).len()
}

/// What is trimmed off at the front is white space and nothing else: what
/// is left is the rest of the text and does not begin with white space.
pub proof fn lemma_trim_start(s: Seq<char>)
    ensures
        0 <= trim_from(s) <= s.len(),
        trim_start(s) == s.subrange(trim_from(s), s.len() as int),
        forall|i: int| 0 <= i < trim_from(s) ==> is_whitespace(s[i]),
        trim_start(s).len() > 0 ==> !is_whitespace(trim_start(s)[0]),
    decreases s.len(),
{
    if s.len() > 0 && is_whitespace(s[0]) {
        let rest = s.drop_first();
        lemma_trim_start(rest);
        let k = trim_from(rest);
        assert(trim_from(s) == k + 1);
        assert(rest.subrange(k, rest.len() as int) =~= s.subrange(k + 1, s.len() as int));
        assert forall|i: int| 0 <= i < trim_from(s) implies is_whitespace(s[i]) by {
            if i > 0 {
                assert(s[i] == rest[i - 1]);
            }
        }
    } else {
        assert(s.subrange(0, s.len() as int) =~= s);
    }
}

/// What is trimmed off at the end is white space and nothing else: what
/// is left is the beginning of the text and does not end with white space.
pub proof fn lemma_trim_end(s: Seq<char>)
    ensures
        trim_end(s).len() <= s.len(),
        trim_end(s) == s.subrange(0, trim_end(s).len() as int),
        forall|i: int| trim_end(s).len() <= i < s.len() ==> is_whitespace(s[i]),
        trim_end(s).len() > 0 ==> !is_whitespace(trim_end(s).last()),
    decreases s.len(),
{
    if s.len() > 0 && is_whitespace(s.last()) {
        let rest = s.drop_last();
        lemma_trim_end(rest);
        let k = trim_end(rest).len() as int;
        assert(rest.subrange(0, k) =~= s.subrange(0, k));
        assert forall|i: int| trim_end(s).len() <= i < s.len() implies is_whitespace(s[i]) by {
            if i < s.len() - 1 {
                assert(s[i] == rest[i]);
            }
        }
    } else {
        assert(s.subrange(0, s.len() as int) =~= s);
    }
}

/// Trimming takes white space off both ends and nothing else: the trimmed
/// text is a stretch of the text, all before and after it is white space,
/// and it neither begins nor ends with white space.
pub proof fn lemma_trim(s: Seq<char>)
    ensures
        0 <= trim_from(s) <= trim_to(s) <= s.len(),
        trim(s) == s.subrange(trim_from(s), trim_to(s)),
        forall|i: int| 0 <= i < trim_from(s) ==> is_whitespace(s[i]),
        forall|i: int| trim_to(s) <= i < s.len() ==> is_whitespace(s[i]),
        trim(s).len() > 0 ==> !is_whitespace(trim(s)[0]) && !is_whitespace(trim(s).last()),
{
    lemma_trim_start(s);
    let left = trim_start(s);
    lemma_trim_end(left);
    let a = trim_from(s);
    let t = trim(s);
    assert(t =~= s.subrange(a, a + t.len()));
    assert forall|i: int| trim_to(s) <= i < s.len() implies is_whitespace(s[i]) by {
        assert(s[i] == left[i - a]);
    }
    if t.len() > 0 {
        assert(t[0] == left[0]);
    }
}

/// A text that begins and ends with characters that are not white space
/// is trimmed to itself.
pub proof fn lemma_trim_of_trimmed(s: Seq<char>)
    requires
        s.len() > 0 ==> !is_whitespace(s[0]) && !is_whitespace(s.last()),
    ensures
        trim(s) == s,
{
    lemma_trim(s);
    if s.len() > 0 {
        if trim_from(s) > 0 {
            assert(is_whitespace(s[0]));
        }
        if trim_to(s) < s.len() {
            assert(is_whitespace(s[s.len() - 1]));
        }
        assert(s.subrange(0, s.len() as int) =~= s);
    } else {
        assert(trim(s) =~= s);
    }
}

/// Collects the characters of `text`.
pub fn to_chars(text: &str) -> (chars: Vec<char>)
    ensures
        chars@ == text@,
{
    let mut chars: Vec<char> = Vec::new();
    for c in it: text.chars()
        invariant
            chars@ == it.seq().take(it.index()),
            it.seq() == text@,
    {
        chars.push(c);
    }
    chars
}

/// Searches `chars[from..to]` for `c`: the position of its first
/// occurrence, or `to`.
pub fn find_char(chars: &Vec<char>, from: usize, to: usize, c: char) -> (n: usize)
    requires
        from <= to <= chars@.len(),
    ensures
        from <= n <= to,
        n - from == first_index_of(chars@.subrange(from as int, to as int), c),
{
    let mut n = from;
    while n < to && chars[n] != c
        invariant
            from <= n <= to <= chars@.len(),
            forall|i: int| from <= i < n ==> chars@[i] != c,
        decreases to - n,
    {
        n += 1;
    }
    proof {
        let s = chars@.subrange(from as int, to as int);
        assert(is_first_index_of(s, c, n - from));
        lemma_first_index_of(s, c, n - from);
    }
    n
}

/// The bounds of `chars[from..to]` with its leading and trailing white
/// space left out.
pub fn trim_bounds(chars: &Vec<char>, from: usize, to: usize) -> (bounds: (usize, usize))
    requires
        from <= to <= chars@.len(),
    ensures
        from <= bounds.0 <= bounds.1 <= to,
        chars@.subrange(bounds.0 as int, bounds.1 as int) == trim(
            chars@.subrange(from as int, to as int),
        ),
{
    let ghost whole = chars@.subrange(from as int, to as int);
    let mut a = from;
    while a < to && char_is_whitespace(chars[a])
        invariant
            from <= a <= to <= chars@.len(),
            trim_start(whole) == trim_start(chars@.subrange(a as int, to as int)),
        decreases to - a,
    {
        proof {
            let s = chars@.subrange(a as int, to as int);
            assert(s.drop_first() =~= chars@.subrange(a + 1, to as int));
        }
        a += 1;
    }
    let ghost left = chars@.subrange(a as int, to as int);
    assert(trim_start(whole) == left);
    let mut b = to;
    while a < b && char_is_whitespace(chars[b - 1])
        invariant
            a <= b <= to <= chars@.len(),
            trim_end(left) == trim_end(chars@.subrange(a as int, b as int)),
        decreases b - a,
    {
        proof {
            let s = chars@.subrange(a as int, b as int);
            assert(s.drop_last() =~= chars@.subrange(a as int, b - 1));
        }
        b -= 1;
    }
    (a, b)
}

/// `input` without its leading and trailing white space, as a name for a
/// group or a table. A name that is blank once trimmed is refused with
/// `EmptyName`.
pub fn validate_name(input: &str) -> (name: Result<String, StoreError>)
    ensures
        match name {
            Ok(text) => text@ == trim(input@) && text@.len() > 0,
            Err(e) => e == StoreError::EmptyName && trim(input@).len() == 0,
        },
{
    let chars = to_chars(input);
    let (a, b) = trim_bounds(&chars, 0, chars.len());
    assert(chars@.subrange(0, chars@.len() as int) =~= chars@);
    if a == b {
        Err(StoreError::EmptyName)
    } else {
        Ok(String::from_str(input.substring_char(a, b)))
    }
}

} // verus!
