//! Numbered names: `name`, `name2`, `name3`, and so on, as they are tried
//! when a new table or group would collide with an existing one.

use vstd::prelude::*;
use vstd::string::*;

verus! {

/// The character that writes the digit `d`.
pub open spec fn digit_char(d: nat) -> char {
    if d == 0 {
        '0'
    } else if d == 1 {
        '1'
    } else if d == 2 {
        '2'
    } else if d == 3 {
        '3'
    } else if d == 4 {
        '4'
    } else if d == 5 {
        '5'
    } else if d == 6 {
        '6'
    } else if d == 7 {
        '7'
    } else if d == 8 {
        '8'
    } else {
        '9'
    }
}

/// `n` written in base ten, most significant digit first, without leading
/// zeros.
pub open spec fn decimal(n: nat) -> Seq<char>
    decreases n,
{
    if n < 10 {
        seq![digit_char(n)]
    } else {
        decimal(n / 10).push(digit_char(n % 10))
    }
}

/// The `k`-th name tried for `base`: `base` itself first, then `base`
/// followed by 2, 3, ...
pub open spec fn numbered_name(base: Seq<char>, k: nat) -> Seq<char> {
    if k <= 1 {
        base
    } else {
        base + decimal(k)
    }
}

/// Distinct digits are written with distinct characters.
pub proof fn lemma_digit_char_injective(a: nat, b: nat)
    requires
        a < 10,
        b < 10,
        digit_char(a) == digit_char(b),
    ensures
        a == b,
{
}

/// Two numbers with the same decimal writing are the same number.
pub proof fn lemma_decimal_injective(a: nat, b: nat)
    requires
        decimal(a) == decimal(b),
    ensures
        a == b,
    decreases a,
{
    if a < 10 {
        if b >= 10 {
            assert(decimal(b).len() == decimal(b / 10).len() + 1);
            assert(decimal(b / 10).len() >= 1) by {
                lemma_decimal_nonempty(b / 10);
            }
        } else {
            assert(decimal(a)[0] == digit_char(a));
            assert(decimal(b)[0] == digit_char(b));
            lemma_digit_char_injective(a, b);
        }
    } else {
        if b < 10 {
            assert(decimal(a / 10).len() >= 1) by {
                lemma_decimal_nonempty(a / 10);
            }
            assert(decimal(a).len() == decimal(a / 10).len() + 1);
        } else {
            let da = decimal(a / 10);
            let db = decimal(b / 10);
            assert(decimal(a).last() == digit_char(a % 10));
            assert(decimal(b).last() == digit_char(b % 10));
            assert(decimal(a).drop_last() =~= da);
            assert(decimal(b).drop_last() =~= db);
            lemma_decimal_injective(a / 10, b / 10);
            lemma_digit_char_injective(a % 10, b % 10);
        }
    }
}

/// A decimal writing has at least one digit.
pub proof fn lemma_decimal_nonempty(n: nat)
    ensures
        decimal(n).len() >= 1,
    decreases n,
{
    if n >= 10 {
        lemma_decimal_nonempty(n / 10);
    }
}

/// Distinct positions give distinct numbered names.
pub proof fn lemma_numbered_name_injective(base: Seq<char>, j: nat, k: nat)
    requires
        1 <= j,
        1 <= k,
        numbered_name(base, j) == numbered_name(base, k),
    ensures
        j == k,
{
    lemma_decimal_nonempty(j);
    lemma_decimal_nonempty(k);
    if j >= 2 && k >= 2 {
        let x = base + decimal(j);
        let y = base + decimal(k);
        assert(x.subrange(base.len() as int, x.len() as int) =~= decimal(j));
        assert(y.subrange(base.len() as int, y.len() as int) =~= decimal(k));
        lemma_decimal_injective(j, k);
    } else if j >= 2 {
        assert((base + decimal(j)).len() > base.len());
    } else if k >= 2 {
        assert((base + decimal(k)).len() > base.len());
    }
}

/// `k` is the first position whose numbered name is not in `taken`.
pub open spec fn is_first_free(taken: Set<Seq<char>>, base: Seq<char>, k: nat) -> bool {
    &&& k >= 1
    &&& !taken.contains(numbered_name(base, k))
    &&& forall|j: nat| 1 <= j < k ==> taken.contains(#[trigger] numbered_name(base, j))
}

/// The first position whose numbered name is not in `taken`.
pub open spec fn first_free_position(taken: Set<Seq<char>>, base: Seq<char>) -> nat {
    choose|k: nat| is_first_free(taken, base, k)
}

/// The name that a new entry gets when `base` is asked for and the names
/// in `taken` are in use: `base` if it is free, else the first free of
/// `base2`, `base3`, ...
pub open spec fn first_free_name(taken: Set<Seq<char>>, base: Seq<char>) -> Seq<char> {
    numbered_name(base, first_free_position(taken, base))
}

/// If the first `k` numbered names are all in use, there are at least `k`
/// names in use.
pub proof fn lemma_taken_names_bounded(taken: Set<Seq<char>>, base: Seq<char>, k: nat)
    requires
        taken.finite(),
        forall|j: nat| 1 <= j <= k ==> taken.contains(#[trigger] numbered_name(base, j)),
    ensures
        k <= taken.len(),
    decreases k,
{
    if k >= 1 {
        let last = numbered_name(base, k);
        assert(taken.contains(last));
        let rest = taken.remove(last);
        assert forall|j: nat| 1 <= j <= k - 1 implies rest.contains(
            #[trigger] numbered_name(base, j),
        ) by {
            if numbered_name(base, j) == last {
                lemma_numbered_name_injective(base, j, k);
            }
        }
        lemma_taken_names_bounded(rest, base, (k - 1) as nat);
    }
}

/// Among finitely many names in use a first free position exists, and it
/// is at most one more than their number.
pub proof fn lemma_first_free_exists(taken: Set<Seq<char>>, base: Seq<char>)
    requires
        taken.finite(),
    ensures
        is_first_free(taken, base, first_free_position(taken, base)),
        first_free_position(taken, base) <= taken.len() + 1,
{
    lemma_first_free_search(taken, base, 1);
    let k = choose|k: nat| is_first_free(taken, base, k);
    assert(forall|j: nat| 1 <= j <= k - 1 ==> taken.contains(#[trigger] numbered_name(base, j)));
    lemma_taken_names_bounded(taken, base, (k - 1) as nat);
}

/// Searching upwards from `from`, below which every numbered name is in
/// use, reaches a first free position.
proof fn lemma_first_free_search(taken: Set<Seq<char>>, base: Seq<char>, from: nat)
    requires
        taken.finite(),
        from >= 1,
        forall|j: nat| 1 <= j < from ==> taken.contains(#[trigger] numbered_name(base, j)),
    ensures
        exists|k: nat| is_first_free(taken, base, k),
    decreases taken.len() + 1 - from,
{
    if !taken.contains(numbered_name(base, from)) {
        assert(is_first_free(taken, base, from));
    } else {
        lemma_taken_names_bounded(taken, base, from);
        lemma_first_free_search(taken, base, from + 1);
    }
}

/// The first free position is the only position that is first and free.
pub proof fn lemma_first_free_unique(taken: Set<Seq<char>>, base: Seq<char>, k: nat)
    requires
        is_first_free(taken, base, k),
    ensures
        first_free_position(taken, base) == k,
{
    let c = first_free_position(taken, base);
    assert(is_first_free(taken, base, c));
    if c < k {
        assert(taken.contains(numbered_name(base, c)));
    } else if k < c {
        assert(taken.contains(numbered_name(base, k)));
    }
}

/// The one-character text of a digit.
fn digit_text(d: u8) -> (text: &'static str)
    requires
        d < 10,
    ensures
        text@ == seq![digit_char(d as nat)],
{
    proof {
        reveal_strlit("0");
        reveal_strlit("1");
        reveal_strlit("2");
        reveal_strlit("3");
        reveal_strlit("4");
        reveal_strlit("5");
        reveal_strlit("6");
        reveal_strlit("7");
        reveal_strlit("8");
        reveal_strlit("9");
    }
    let text = if d == 0 {
        "0"
    } else if d == 1 {
        "1"
    } else if d == 2 {
        "2"
    } else if d == 3 {
        "3"
    } else if d == 4 {
        "4"
    } else if d == 5 {
        "5"
    } else if d == 6 {
        "6"
    } else if d == 7 {
        "7"
    } else if d == 8 {
        "8"
    } else {
        "9"
    };
    assert(text@ =~= seq![digit_char(d as nat)]);
    text
}

/// Appends the decimal writing of `n` to `text`.
pub fn append_decimal(text: &mut String, n: u128)
    ensures
        final(text)@ == old(text)@ + decimal(n as nat),
    decreases n,
{
    if n >= 10 {
        append_decimal(text, n / 10);
    }
    let d: u8 = (n % 10) as u8;
    text.append(digit_text(d));
    assert(text@ =~= old(text)@ + decimal(n as nat));
}

/// Builds the `k`-th name tried for `base`.
pub fn numbered_name_text(base: &str, k: u128) -> (name: String)
    ensures
        name@ == numbered_name(base@, k as nat),
{
    let mut name = String::from_str(base);
    if k >= 2 {
        append_decimal(&mut name, k);
    }
    name
}

} // verus!
