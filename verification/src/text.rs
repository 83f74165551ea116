//! Cutting a text at a mark, and reading decimal numbers.

use vstd::prelude::*;

verus! {

/// The place of the first `mark` in `text`, or the length of `text` if it
/// holds none.
pub open spec fn first_index(text: Seq<char>, mark: char) -> int
    decreases text.len(),
{
    if text.len() == 0 || text[0] == mark {
        0
    } else {
        1 + first_index(text.drop_first(), mark)
    }
}

/// The pieces of `text` between its marks, in order. A text with n marks
/// has n + 1 pieces, some of which may be empty.
pub open spec fn split(text: Seq<char>, mark: char) -> Seq<Seq<char>>
    decreases text.len(),
{
    let cut = first_index(text, mark);
    if 0 <= cut < text.len() {
        seq![text.take(cut)] + split(text.skip(cut + 1), mark)
    } else {
        seq![text]
    }
}

/// Whether `c` is one of the ten decimal digits.
pub open spec fn is_digit(c: char) -> bool {
    '0' <= c <= '9'
}

/// The number that a decimal digit stands for.
pub open spec fn digit_value(c: char) -> nat {
    if is_digit(c) {
        (c as nat - '0' as nat) as nat
    } else {
        0
    }
}

/// Whether `text` is made of decimal digits only.
pub open spec fn all_digits(text: Seq<char>) -> bool {
    forall|i: int| 0 <= i < text.len() ==> is_digit(#[trigger] text[i])
}

/// The number that a row of decimal digits stands for.
pub open spec fn decimal(digits: Seq<char>) -> nat
    decreases digits.len(),
{
    if digits.len() == 0 {
        0
    } else {
        decimal(digits.drop_last()) * 10 + digit_value(digits.last())
    }
}

/// `text` without the plus sign that may lead it.
pub open spec fn unsigned(text: Seq<char>) -> Seq<char> {
    if text.len() > 0 && text[0] == '+' {
        text.skip(1)
    } else {
        text
    }
}

/// The number that `text` stands for: an optional plus sign, then one or
/// more decimal digits and nothing else.
pub open spec fn number(text: Seq<char>) -> Option<nat> {
    let digits = unsigned(text);
    if digits.len() > 0 && all_digits(digits) {
        Some(decimal(digits))
    } else {
        None
    }
}

/// A number as a machine word, where it fits.
pub open spec fn word(n: Option<nat>) -> Option<usize> {
    match n {
        Some(n) => if n <= usize::MAX {
            Some(n as usize)
        } else {
            None
        },
        None => None,
    }
}

/// `first_index` is the one place that has no mark before it and either a
/// mark on it or the end of the text.
pub proof fn lemma_first_index(text: Seq<char>, mark: char, at: int)
    requires
        0 <= at <= text.len(),
        forall|j: int| 0 <= j < at ==> text[j] != mark,
        at < text.len() ==> text[at] == mark,
    ensures
        first_index(text, mark) == at,
    decreases text.len(),
{
    if text.len() != 0 && text[0] != mark {
        let rest = text.drop_first();
        assert forall|j: int| 0 <= j < at - 1 implies rest[j] != mark by {
            assert(rest[j] == text[j + 1]);
        }
        lemma_first_index(rest, mark, at - 1);
    }
}

/// The first piece of a text ends at its first mark, and the other pieces
/// are those of what follows that mark.
pub proof fn lemma_split_head(text: Seq<char>, mark: char)
    ensures
        split(text, mark).len() >= 1,
        ({
            let cut = first_index(text, mark);
            if 0 <= cut < text.len() {
                &&& split(text, mark)[0] == text.take(cut)
                &&& split(text, mark).skip(1) == split(text.skip(cut + 1), mark)
            } else {
                split(text, mark) == seq![text]
            }
        }),
{
    let cut = first_index(text, mark);
    if 0 <= cut < text.len() {
        let rest = split(text.skip(cut + 1), mark);
        assert((seq![text.take(cut)] + rest).skip(1) == rest);
    }
}

/// A row of digits stands for no less than any of its beginnings.
pub proof fn lemma_decimal_grows(digits: Seq<char>, k: int)
    requires
        0 <= k <= digits.len(),
    ensures
        decimal(digits.take(k)) <= decimal(digits),
    decreases digits.len(),
{
    if k == digits.len() {
        assert(digits.take(k) == digits);
    } else {
        assert(digits.drop_last().take(k) == digits.take(k));
        lemma_decimal_grows(digits.drop_last(), k);
    }
}

/// The place in `text[from..to]` of the first `mark`, counted from the
/// start of `text`, or `to` if there is none.
pub(crate) fn find(text: &Vec<char>, from: usize, to: usize, mark: char) -> (at: usize)
    requires
        from <= to <= text.len(),
    ensures
        from <= at <= to,
        at - from == first_index(text@.subrange(from as int, to as int), mark),
{
    let mut at: usize = from;
    while at < to && text[at] != mark
        invariant
            from <= at <= to <= text.len(),
            forall|j: int| from <= j < at ==> text@[j] != mark,
        decreases to - at,
    {
        at += 1;
    }
    proof {
        lemma_first_index(text@.subrange(from as int, to as int), mark, at - from);
    }
    at
}

/// Reads `text[from..to]` as a number.
pub(crate) fn read_number(text: &Vec<char>, from: usize, to: usize) -> (r: Option<usize>)
    requires
        from <= to <= text.len(),
    ensures
        r == word(number(text@.subrange(from as int, to as int))),
{
    let ghost whole = text@.subrange(from as int, to as int);
    let mut at: usize = from;
    if at < to && text[at] == '+' {
        at += 1;
    }
    let start: usize = at;
    let ghost digits = text@.subrange(start as int, to as int);
    assert(digits == unsigned(whole));
    if at == to {
        return None;
    }
    let mut value: usize = 0;
    while at < to
        invariant
            from <= start <= at <= to <= text.len(),
            digits == text@.subrange(start as int, to as int),
            digits == unsigned(text@.subrange(from as int, to as int)),
            all_digits(digits.take(at - start)),
            value == decimal(digits.take(at - start)),
        decreases to - at,
    {
        let c: char = text[at];
        if !('0' <= c && c <= '9') {
            assert(!is_digit(digits[at - start]));
            return None;
        }
        let digit: usize = (c as u32 - '0' as u32) as usize;
        let ghost seen = digits.take(at - start + 1);
        assert(seen.drop_last() == digits.take(at - start));
        assert(decimal(seen) == value * 10 + digit);
        proof {
            lemma_decimal_grows(digits, at - start + 1);
        }
        let tens: usize = match value.checked_mul(10) {
            Some(tens) => tens,
            None => {
                return None;
            },
        };
        value = match tens.checked_add(digit) {
            Some(sum) => sum,
            None => {
                return None;
            },
        };
        at += 1;
    }
    assert(digits.take(at - start) == digits);
    Some(value)
}

} // verus!
