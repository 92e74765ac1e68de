//! Decimal text of natural numbers, and labels made of a tag and a number.

use vstd::prelude::*;
use vstd::string::StringExecFns;

verus! {

/// The character that writes the digit `d`.
pub open spec fn digit_char(d: nat) -> char
    recommends
        d < 10,
{
    seq!['0', '1', '2', '3', '4', '5', '6', '7', '8', '9'][d as int]
}

/// The decimal text of `n`: most significant digit first, no sign, and no
/// leading zero except for `0` itself.
pub open spec fn decimal_digits(n: nat) -> Seq<char>
    decreases n,
{
    if n < 10 {
        seq![digit_char(n)]
    } else {
        decimal_digits(n / 10).push(digit_char(n % 10))
    }
}

/// A tag followed by the decimal text of a number.
pub open spec fn label(tag: Seq<char>, n: nat) -> Seq<char> {
    tag + decimal_digits(n)
}

/// The one-character text of the digit `d`.
fn digit_text(d: u64) -> (text: &'static str)
    requires
        d < 10,
    ensures
        text@ == seq![digit_char(d as nat)],
{
    proof {
        reveal_strlit("0");
        reveal_strlit("1");
        reveal_strlit("2");
        reveal_strlit("3");
        reveal_strlit("4");
        reveal_strlit("5");
        reveal_strlit("6");
        reveal_strlit("7");
        reveal_strlit("8");
        reveal_strlit("9");
    }
    let text = match d {
        0 => "0",
        1 => "1",
        2 => "2",
        3 => "3",
        4 => "4",
        5 => "5",
        6 => "6",
        7 => "7",
        8 => "8",
        _ => "9",
    };
    assert(text@ =~= seq![digit_char(d as nat)]);
    text
}

/// Appends the decimal text of `n` to `text`.
pub fn append_decimal(text: &mut String, n: u64)
    ensures
        final(text)@ == old(text)@ + decimal_digits(n as nat),
    decreases n,
{
    if n >= 10 {
        append_decimal(text, n / 10);
    }
    text.append(digit_text(n % 10));
}

/// The text made of `tag` followed by the decimal text of `n`.
pub fn labelled(tag: &str, n: u64) -> (text: String)
    ensures
        text@ == label(tag@, n as nat),
{
    let mut text = String::from_str(tag);
    append_decimal(&mut text, n);
    text
}

/// The decimal text of a number has at least one character, and more than
/// one exactly when the number is ten or more.
pub proof fn lemma_decimal_digits_len(n: nat)
    ensures
        decimal_digits(n).len() >= 1,
        n >= 10 <==> decimal_digits(n).len() >= 2,
    decreases n,
{
    if n >= 10 {
        lemma_decimal_digits_len(n / 10);
    }
}

/// Two numbers with the same decimal text are the same number.
pub proof fn lemma_decimal_digits_injective(a: nat, b: nat)
    requires
        decimal_digits(a) == decimal_digits(b),
    ensures
        a == b,
    decreases a,
{
    lemma_decimal_digits_len(a);
    lemma_decimal_digits_len(b);
    if a >= 10 {
        let head_a = decimal_digits(a / 10);
        let head_b = decimal_digits(b / 10);
        assert(decimal_digits(a).drop_last() == head_a);
        assert(decimal_digits(b).drop_last() == head_b);
        assert(decimal_digits(a).last() == digit_char(a % 10));
        assert(decimal_digits(b).last() == digit_char(b % 10));
        lemma_decimal_digits_injective(a / 10, b / 10);
    } else {
        assert(decimal_digits(a)[0] == digit_char(a));
        assert(decimal_digits(b)[0] == digit_char(b));
    }
}

/// Two labels over one tag are equal only for the same number.
pub proof fn lemma_label_injective(tag: Seq<char>, a: nat, b: nat)
    requires
        label(tag, a) == label(tag, b),
    ensures
        a == b,
{
    let n: int = tag.len() as int;
    assert(label(tag, a).subrange(n, label(tag, a).len() as int) == decimal_digits(a));
    assert(label(tag, b).subrange(n, label(tag, b).len() as int) == decimal_digits(b));
    lemma_decimal_digits_injective(a, b);
}

} // verus!
