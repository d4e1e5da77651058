//! Characters, digits and numbers in text.

use vstd::prelude::*;

verus! {

/// The characters of a text, one by one.
pub fn chars_of(text: &str) -> (chars: Vec<char>)
    ensures
        chars@ == text@,
{
    let mut chars: Vec<char> = Vec::new();
    for c in it: text.chars()
        invariant
            it.seq() == text@,
            chars@ == text@.take(it.index() as int),
    {
        chars.push(c);
    }
    chars
}

/// Where a character first occurs; the length of the text if it does not.
pub open spec fn first_of(text: Seq<char>, c: char) -> nat
    decreases text.len(),
{
    if text.len() == 0 || text[0] == c {
        0
    } else {
        1 + first_of(text.skip(1), c)
    }
}

/// Nothing before the first occurrence is an occurrence.
pub proof fn lemma_first_of(text: Seq<char>, c: char)
    ensures
        first_of(text, c) <= text.len(),
        forall|i: int| 0 <= i < first_of(text, c) ==> text[i] != c,
        first_of(text, c) < text.len() ==> text[first_of(text, c) as int] == c,
    decreases text.len(),
{
    if text.len() > 0 && text[0] != c {
        lemma_first_of(text.skip(1), c);
        assert forall|i: int| 0 <= i < first_of(text, c) implies text[i] != c by {
            if i > 0 {
                assert(text[i] == text.skip(1)[i - 1]);
            }
        }
    }
}

/// Finds a character in a stretch of text; the end of the stretch if it is not there.
pub fn find_char(chars: &Vec<char>, from: usize, to: usize, c: char) -> (at: usize)
    requires
        from <= to <= chars.len(),
    ensures
        at == from + first_of(chars@.subrange(from as int, to as int), c),
        from <= at <= to,
{
    let mut at: usize = from;
    let ghost whole = chars@.subrange(from as int, to as int);
    assert(chars@.subrange(at as int, to as int) =~= whole);
    while at < to && chars[at] != c
        invariant
            from <= at <= to <= chars.len(),
            first_of(whole, c) == at - from + first_of(chars@.subrange(at as int, to as int), c),
        decreases to - at,
    {
        assert(chars@.subrange(at as int, to as int).skip(1) =~= chars@.subrange(at + 1, to as int));
        at = at + 1;
    }
    at
}

/// Whether a stretch of text begins with a key.
pub fn begins_with(chars: &Vec<char>, from: usize, to: usize, key: &Vec<char>) -> (found: bool)
    requires
        from <= to <= chars.len(),
    ensures
        found == key@.is_prefix_of(chars@.subrange(from as int, to as int)),
{
    let ghost stretch = chars@.subrange(from as int, to as int);
    if to - from < key.len() {
        return false;
    }
    let mut at: usize = 0;
    while at < key.len()
        invariant
            from <= to <= chars.len(),
            key.len() <= to - from,
            at <= key.len(),
            stretch == chars@.subrange(from as int, to as int),
            forall|i: int| 0 <= i < at ==> key@[i] == stretch[i],
        decreases key.len() - at,
    {
        if chars[from + at] != key[at] {
            assert(stretch.subrange(0, key@.len() as int)[at as int] != key@[at as int]);
            return false;
        }
        at = at + 1;
    }
    assert(key@ =~= stretch.subrange(0, key@.len() as int));
    true
}

/// Whether a character is one of the ten decimal digits.
pub open spec fn is_digit(c: char) -> bool {
    '0' <= c && c <= '9'
}

/// Whether a text is made of decimal digits, at least one of them.
pub open spec fn is_number(text: Seq<char>) -> bool {
    text.len() > 0 && forall|i: int| 0 <= i < text.len() ==> is_digit(#[trigger] text[i])
}

/// The number that a text of decimal digits stands for.
pub open spec fn decimal_value(text: Seq<char>) -> nat
    decreases text.len(),
{
    if text.len() == 0 {
        0
    } else {
        decimal_value(text.drop_last()) * 10 + (text.last() as nat - '0' as nat) as nat
    }
}

/// What is left of a text without the plus sign that a number may start with.
pub open spec fn without_plus(text: Seq<char>) -> Seq<char> {
    if text.len() > 0 && text[0] == '+' {
        text.skip(1)
    } else {
        text
    }
}

/// Reading more digits never makes a number smaller.
proof fn lemma_decimal_value_grows(text: Seq<char>, from: int)
    requires
        0 <= from <= text.len(),
    ensures
        decimal_value(text.take(from)) <= decimal_value(text),
    decreases text.len() - from,
{
    if from < text.len() {
        lemma_decimal_value_grows(text, from + 1);
        assert(text.take(from + 1).drop_last() =~= text.take(from));
    } else {
        assert(text.take(from) =~= text);
    }
}

/// Reads an unsigned number: decimal digits, at least one, with or without a plus
/// sign in front. Anything else, and a number that does not fit, is refused.
pub fn parse_usize(text: &str) -> (number: Option<usize>)
    ensures
        number is Some <==> is_number(without_plus(text@)) && decimal_value(without_plus(text@)) <= usize::MAX,
        number matches Some(n) ==> n == decimal_value(without_plus(text@)),
{
    let chars: Vec<char> = chars_of(text);
    let ghost digits = without_plus(text@);
    let start: usize = if chars.len() > 0 && chars[0] == '+' {
        1
    } else {
        0
    };
    assert(digits =~= chars@.skip(start as int));
    if start == chars.len() {
        return None;
    }
    let mut value: usize = 0;
    let mut at: usize = start;
    while at < chars.len()
        invariant
            start <= at <= chars.len(),
            digits == chars@.skip(start as int),
            forall|i: int| 0 <= i < at - start ==> is_digit(#[trigger] digits[i]),
            value == decimal_value(digits.take(at - start)),
            digits == without_plus(text@),
        decreases chars.len() - at,
    {
        let c: char = chars[at];
        assert(c == digits[at - start]);
        if c < '0' || '9' < c {
            return None;
        }
        let digit: usize = (c as u32 - '0' as u32) as usize;
        assert(digits.take(at - start + 1).drop_last() =~= digits.take(at - start));
        assert(decimal_value(digits.take(at - start + 1)) == value * 10 + digit);
        proof {
            lemma_decimal_value_grows(digits, at - start + 1);
        }
        if value > usize::MAX / 10 {
            return None;
        }
        if digit > usize::MAX - value * 10 {
            return None;
        }
        value = value * 10 + digit;
        at = at + 1;
    }
    assert(digits.take(at - start) =~= digits);
    Some(value)
}

/// A text is a number if and only if it has characters and each of them lies between
/// `0` and `9`.
pub proof fn a_number_is_made_of_digits(text: Seq<char>)
    ensures
        is_number(text) <==> text.len() > 0 && forall|i: int|
            0 <= i < text.len() ==> '0' as int <= (#[trigger] text[i]) as int <= '9' as int,
{
}

/// Nothing written down counts nothing, and every further digit makes ten times as
/// much and its own value more.
pub proof fn a_further_digit_makes_ten_times_as_much(text: Seq<char>, digit: int)
    requires
        0 <= digit <= 9,
    ensures
        decimal_value(Seq::empty()) == 0,
        decimal_value(text.push((48 + digit) as char)) == 10 * decimal_value(text) + digit,
{
    assert(text.push((48 + digit) as char).drop_last() =~= text);
}

/// One plus sign in front is dropped, and nothing else.
pub proof fn one_plus_sign_is_dropped(text: Seq<char>)
    ensures
        without_plus(seq!['+'] + text) == text,
        (text.len() == 0 || text[0] != '+') ==> without_plus(text) == text,
{
    assert((seq!['+'] + text).skip(1) =~= text);
}

/// The decimal notation of a number, without leading zeros.
pub open spec fn decimal_text(n: nat) -> Seq<char>
    decreases n,
{
    if n < 10 {
        seq![(48 + n) as char]
    } else {
        decimal_text(n / 10).push((48 + n % 10) as char)
    }
}

/// So many zero digits.
pub open spec fn zero_digits(count: nat) -> Seq<char> {
    Seq::new(count, |i: int| '0')
}

/// A number as it may be written: with or without a plus sign, and with any number of
/// zeros in front.
pub open spec fn notation(plus: bool, zeros: nat, n: nat) -> Seq<char> {
    (if plus {
        seq!['+']
    } else {
        Seq::empty()
    }) + (zero_digits(zeros) + decimal_text(n))
}

/// The decimal notation of a number is a number, and it is this number.
pub proof fn decimal_notation_is_read_back(n: nat)
    ensures
        is_number(decimal_text(n)),
        decimal_value(decimal_text(n)) == n,
    decreases n,
{
    if n < 10 {
        assert(decimal_text(n).drop_last() =~= Seq::empty());
        assert(decimal_value(Seq::empty()) == 0);
    } else {
        decimal_notation_is_read_back(n / 10);
        assert(decimal_text(n).drop_last() =~= decimal_text(n / 10));
        assert forall|i: int| 0 <= i < decimal_text(n).len() implies is_digit(
            #[trigger] decimal_text(n)[i],
        ) by {
            if i < decimal_text(n / 10).len() {
                assert(decimal_text(n / 10)[i] == decimal_text(n)[i]);
            }
        }
    }
}

proof fn lemma_zeros_in_front(zeros: nat, text: Seq<char>)
    requires
        is_number(text),
    ensures
        is_number(zero_digits(zeros) + text),
        decimal_value(zero_digits(zeros) + text) == decimal_value(text),
    decreases text.len() + zeros,
{
    let whole = zero_digits(zeros) + text;
    assert forall|i: int| 0 <= i < whole.len() implies is_digit(#[trigger] whole[i]) by {
        if i >= zeros {
            assert(text[i - zeros] == whole[i]);
        }
    }
    let shorter = text.drop_last();
    if shorter.len() > 0 {
        assert forall|i: int| 0 <= i < shorter.len() implies is_digit(#[trigger] shorter[i]) by {
            assert(text[i] == shorter[i]);
        }
        lemma_zeros_in_front(zeros, shorter);
    } else {
        assert(shorter =~= Seq::empty());
        assert(decimal_value(shorter) == 0);
        lemma_zeros_are_nothing(zeros);
        assert(zero_digits(zeros) + shorter =~= zero_digits(zeros));
    }
    assert(whole.drop_last() =~= zero_digits(zeros) + shorter);
    assert(whole.last() == text.last());
    assert(decimal_value(whole.drop_last()) == decimal_value(shorter));
}

proof fn lemma_zeros_are_nothing(zeros: nat)
    ensures
        decimal_value(zero_digits(zeros)) == 0,
    decreases zeros,
{
    if zeros > 0 {
        lemma_zeros_are_nothing((zeros - 1) as nat);
        assert(zero_digits(zeros).drop_last() =~= zero_digits((zeros - 1) as nat));
    }
}

/// However a number is written, it is read as this number.
pub proof fn every_notation_is_read(plus: bool, zeros: nat, n: nat)
    ensures
        is_number(without_plus(notation(plus, zeros, n))),
        decimal_value(without_plus(notation(plus, zeros, n))) == n,
{
    let digits = zero_digits(zeros) + decimal_text(n);
    decimal_notation_is_read_back(n);
    lemma_zeros_in_front(zeros, decimal_text(n));
    one_plus_sign_is_dropped(digits);
    if !plus {
        assert(notation(plus, zeros, n) =~= digits);
        assert(is_digit(digits[0]));
    }
}

/// What is read as a number is a notation of this number.
pub proof fn only_a_notation_is_read(text: Seq<char>)
    requires
        is_number(without_plus(text)),
    ensures
        exists|plus: bool, zeros: nat|
            text == #[trigger] notation(plus, zeros, decimal_value(without_plus(text))),
{
    let digits = without_plus(text);
    let zeros = lemma_zeros_and_notation(digits);
    let plus = text.len() > 0 && text[0] == '+';
    assert(text =~= notation(plus, zeros, decimal_value(digits)));
}

proof fn lemma_zeros_and_notation(text: Seq<char>) -> (zeros: nat)
    requires
        is_number(text),
    ensures
        text == zero_digits(zeros) + decimal_text(decimal_value(text)),
    decreases text.len(),
{
    let shorter = text.drop_last();
    let digit = (text.last() as nat - 48) as nat;
    assert(is_digit(text[text.len() - 1]));
    assert((48 + digit) as char == text.last());
    if shorter.len() == 0 {
        assert(shorter =~= Seq::empty());
        assert(decimal_value(shorter) == 0);
        assert(text =~= zero_digits(0) + decimal_text(decimal_value(text)));
        0
    } else {
        assert forall|i: int| 0 <= i < shorter.len() implies is_digit(#[trigger] shorter[i]) by {
            assert(text[i] == shorter[i]);
        }
        let zeros = lemma_zeros_and_notation(shorter);
        let head = decimal_value(shorter);
        assert(decimal_value(text) == head * 10 + digit);
        assert(text =~= shorter.push(text.last()));
        if head == 0 {
            assert(decimal_text(0) =~= seq!['0']);
            assert(text =~= zero_digits(zeros + 1) + decimal_text(digit));
            zeros + 1
        } else {
            assert((head * 10 + digit) / 10 == head);
            assert((head * 10 + digit) % 10 == digit);
            assert(text =~= zero_digits(zeros) + decimal_text(decimal_value(text)));
            zeros
        }
    }
}

} // verus!
