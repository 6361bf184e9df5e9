//! Text helpers shared by the tokenizer and the diagnostics.
use vstd::prelude::*;
use vstd::std_specs::iter::IteratorSpec;

verus! {

/// `String::push` of std appends the character at the end of the string and
/// changes nothing else.
pub assume_specification[ std::string::String::push ](s: &mut std::string::String, c: char)
    ensures
        final(s)@ == old(s)@.push(c),
;

/// The characters of `s`, in order.
pub fn chars_of(s: &str) -> (chars: Vec<char>)
    ensures
        chars@ == s@,
{
    let total = s.unicode_len();
    let mut chars: Vec<char> = Vec::new();
    let mut iter = s.chars();
    let mut done: usize = 0;
    while done < total
        invariant
            done <= total,
            total == s@.len(),
            iter.remaining() == s@.skip(done as int),
            chars@ == s@.take(done as int),
        decreases total - done,
    {
        if let Some(c) = iter.next() {
            chars.push(c);
        }
        done += 1;
        assert(s@.take(done as int) == s@.take(done - 1).push(s@[done - 1]));
    }
    chars
}

/// Whether `word` spells exactly `expected`.
pub fn spells(word: &[char], expected: &str) -> (same: bool)
    ensures
        same == (word@ == expected@),
{
    let n = expected.unicode_len();
    if word.len() != n {
        return false;
    }
    let mut i: usize = 0;
    while i < n
        invariant
            i <= n,
            n == expected@.len(),
            n == word@.len(),
            forall|k: int| 0 <= k < i ==> word@[k] == expected@[k],
        decreases n - i,
    {
        if word[i] != expected.get_char(i) {
            return false;
        }
        i += 1;
    }
    assert(word@ =~= expected@);
    true
}

/// `count` copies of `c`.
pub open spec fn repeat(c: char, count: nat) -> Seq<char> {
    Seq::new(count, |i: int| c)
}

/// Appends `count` copies of `c` to `s`.
pub fn push_repeated(s: &mut String, c: char, count: usize)
    ensures
        final(s)@ == old(s)@ + repeat(c, count as nat),
{
    let mut i: usize = 0;
    while i < count
        invariant
            i <= count,
            s@ == old(s)@ + repeat(c, i as nat),
        decreases count - i,
    {
        s.push(c);
        i += 1;
        assert(s@ =~= old(s)@ + repeat(c, i as nat));
    }
}

/// The decimal digit for `d`.
pub open spec fn digit_char(d: nat) -> char {
    if d == 0 {
        '0'
    } else if d == 1 {
        '1'
    } else if d == 2 {
        '2'
    } else if d == 3 {
        '3'
    } else if d == 4 {
        '4'
    } else if d == 5 {
        '5'
    } else if d == 6 {
        '6'
    } else if d == 7 {
        '7'
    } else if d == 8 {
        '8'
    } else {
        '9'
    }
}

/// `n` written in decimal, without leading zeros.
pub open spec fn decimal(n: nat) -> Seq<char>
    decreases n,
{
    if n < 10 {
        seq![digit_char(n)]
    } else {
        decimal(n / 10).push(digit_char(n % 10))
    }
}

/// The digit character of `d`.
pub fn digit_of(d: usize) -> (c: char)
    requires
        d < 10,
    ensures
        c == digit_char(d as nat),
{
    if d == 0 {
        '0'
    } else if d == 1 {
        '1'
    } else if d == 2 {
        '2'
    } else if d == 3 {
        '3'
    } else if d == 4 {
        '4'
    } else if d == 5 {
        '5'
    } else if d == 6 {
        '6'
    } else if d == 7 {
        '7'
    } else if d == 8 {
        '8'
    } else {
        '9'
    }
}

/// The digits of `n` from the last to the first.
pub open spec fn digits_reversed(n: nat) -> Seq<char>
    decreases n,
{
    if n < 10 {
        seq![digit_char(n)]
    } else {
        seq![digit_char(n % 10)] + digits_reversed(n / 10)
    }
}

/// Reading `digits_reversed` backwards gives `decimal`.
pub proof fn lemma_digits_reversed(n: nat)
    ensures
        digits_reversed(n).len() == decimal(n).len(),
        digits_reversed(n).len() > 0,
        forall|k: int|
            0 <= k < decimal(n).len() ==> #[trigger] decimal(n)[k] == digits_reversed(n)[
                decimal(n).len() - 1 - k],
    decreases n,
{
    if n >= 10 {
        lemma_digits_reversed(n / 10);
    }
}

/// Appends `n`, written in decimal, to `s`.
pub fn push_decimal(s: &mut String, n: usize)
    ensures
        final(s)@ == old(s)@ + decimal(n as nat),
{
    let mut digits: Vec<char> = Vec::new();
    let mut rest: usize = n;
    while rest >= 10
        invariant
            digits@ + digits_reversed(rest as nat) == digits_reversed(n as nat),
        decreases rest,
    {
        let ghost before = digits@;
        digits.push(digit_of(rest % 10));
        assert(digits@ + digits_reversed((rest / 10) as nat) =~= before + digits_reversed(
            rest as nat,
        ));
        rest = rest / 10;
    }
    digits.push(digit_of(rest));
    assert(digits@ =~= digits_reversed(n as nat));
    proof {
        lemma_digits_reversed(n as nat);
    }
    let mut left: usize = digits.len();
    while left > 0
        invariant
            left <= digits@.len(),
            digits@.len() == decimal(n as nat).len(),
            forall|k: int|
                0 <= k < digits@.len() ==> #[trigger] decimal(n as nat)[k] == digits@[digits@.len()
                    - 1 - k],
            s@ == old(s)@ + decimal(n as nat).take(digits@.len() - left),
        decreases left,
    {
        left -= 1;
        s.push(digits[left]);
        assert(s@ =~= old(s)@ + decimal(n as nat).take(digits@.len() - left));
    }
    assert(decimal(n as nat).take(digits@.len() as int) =~= decimal(n as nat));
}

} // verus!
