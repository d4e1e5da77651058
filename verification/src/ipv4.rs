//! IPv4 addresses and their dotted notation.

use vstd::prelude::*;

use crate::text::chars_of;
#[allow(unused_imports)]
use crate::text::is_digit;

verus! {

/// An IPv4 address, by its four octets.
#[derive(Debug, Clone, Copy, PartialEq, Eq, Structural)]
pub struct Ipv4 {
    pub a: u8,
    pub b: u8,
    pub c: u8,
    pub d: u8,
}

/// The character of a decimal digit.
pub open spec fn digit_char(n: int) -> char {
    ('0' as int + n) as char
}

/// An octet in decimal notation, without leading zeros.
pub open spec fn octet_text(n: u8) -> Seq<char> {
    if n < 10 {
        seq![digit_char(n as int)]
    } else if n < 100 {
        seq![digit_char(n as int / 10), digit_char(n as int % 10)]
    } else {
        seq![
            digit_char(n as int / 100),
            digit_char(n as int / 10 % 10),
            digit_char(n as int % 10),
        ]
    }
}

/// The dotted notation of an address.
pub open spec fn dotted(ip: Ipv4) -> Seq<char> {
    octet_text(ip.a) + seq!['.'] + octet_text(ip.b) + seq!['.'] + octet_text(ip.c) + seq!['.']
        + octet_text(ip.d)
}

/// The address that a text is the dotted notation of.
pub open spec fn ipv4_of(text: Seq<char>) -> Option<Ipv4> {
    if exists|ip: Ipv4| text == #[trigger] dotted(ip) {
        Some(choose|ip: Ipv4| text == #[trigger] dotted(ip))
    } else {
        None
    }
}

/// Whether an octet stands in a text from `at` to `end`, where its digits end.
spec fn octet_at(text: Seq<char>, at: int, n: u8, end: int) -> bool {
    &&& 0 <= at < end <= text.len()
    &&& text.subrange(at, end) == octet_text(n)
    &&& end < text.len() ==> !is_digit(text[end])
}

proof fn lemma_octet_text(n: u8)
    ensures
        1 <= octet_text(n).len() <= 3,
        forall|i: int| 0 <= i < octet_text(n).len() ==> is_digit(#[trigger] octet_text(n)[i]),
{
}

proof fn lemma_octet_text_injective(n: u8, m: u8)
    requires
        octet_text(n) == octet_text(m),
    ensures
        n == m,
{
    let x = octet_text(n);
    let y = octet_text(m);
    assert(x.len() == y.len());
    assert(x[0] == y[0]);
    assert(x[x.len() - 1] == y[y.len() - 1]);
    if x.len() == 3 {
        assert(x[1] == y[1]);
    }
}

/// At one place of a text there is at most one octet.
proof fn lemma_octet_unique(text: Seq<char>, at: int, n: u8, end: int, m: u8, stop: int)
    requires
        octet_at(text, at, n, end),
        octet_at(text, at, m, stop),
    ensures
        n == m,
        end == stop,
{
    lemma_octet_text(n);
    lemma_octet_text(m);
    if end < stop {
        assert(text.subrange(at, stop)[end - at] == text[end]);
    }
    if stop < end {
        assert(text.subrange(at, end)[stop - at] == text[stop]);
    }
    lemma_octet_text_injective(n, m);
}

/// Where the octets of a dotted address stand.
proof fn lemma_dotted_octets(ip: Ipv4)
    ensures
        ({
            let text = dotted(ip);
            let e1 = octet_text(ip.a).len() as int;
            let e2 = e1 + 1 + octet_text(ip.b).len();
            let e3 = e2 + 1 + octet_text(ip.c).len();
            &&& octet_at(text, 0, ip.a, e1)
            &&& text[e1] == '.'
            &&& octet_at(text, e1 + 1, ip.b, e2)
            &&& text[e2] == '.'
            &&& octet_at(text, e2 + 1, ip.c, e3)
            &&& text[e3] == '.'
            &&& octet_at(text, e3 + 1, ip.d, text.len() as int)
        }),
{
    let text = dotted(ip);
    let e1 = octet_text(ip.a).len() as int;
    let e2 = e1 + 1 + octet_text(ip.b).len();
    let e3 = e2 + 1 + octet_text(ip.c).len();
    lemma_octet_text(ip.a);
    lemma_octet_text(ip.b);
    lemma_octet_text(ip.c);
    lemma_octet_text(ip.d);
    assert(text.subrange(0, e1) =~= octet_text(ip.a));
    assert(text.subrange(e1 + 1, e2) =~= octet_text(ip.b));
    assert(text.subrange(e2 + 1, e3) =~= octet_text(ip.c));
    assert(text.subrange(e3 + 1, text.len() as int) =~= octet_text(ip.d));
}

/// A text made of four octets with dots between them is the dotted notation of the
/// address with these octets, and of no other.
proof fn lemma_octets_dotted(text: Seq<char>, ip: Ipv4, e1: int, e2: int, e3: int)
    requires
        octet_at(text, 0, ip.a, e1),
        e1 < text.len() && text[e1] == '.',
        octet_at(text, e1 + 1, ip.b, e2),
        e2 < text.len() && text[e2] == '.',
        octet_at(text, e2 + 1, ip.c, e3),
        e3 < text.len() && text[e3] == '.',
        octet_at(text, e3 + 1, ip.d, text.len() as int),
    ensures
        text == dotted(ip),
{
    assert(text =~= text.subrange(0, e1) + seq!['.'] + text.subrange(e1 + 1, e2) + seq!['.']
        + text.subrange(e2 + 1, e3) + seq!['.'] + text.subrange(e3 + 1, text.len() as int));
}

/// Two addresses with the same dotted notation are the same.
proof fn lemma_dotted_injective(x: Ipv4, y: Ipv4)
    requires
        dotted(x) == dotted(y),
    ensures
        x == y,
{
    lemma_dotted_octets(x);
    lemma_dotted_octets(y);
    let text = dotted(x);
    let e1 = octet_text(x.a).len() as int;
    let e2 = e1 + 1 + octet_text(x.b).len();
    let e3 = e2 + 1 + octet_text(x.c).len();
    let f1 = octet_text(y.a).len() as int;
    let f2 = f1 + 1 + octet_text(y.b).len();
    let f3 = f2 + 1 + octet_text(y.c).len();
    lemma_octet_unique(text, 0, x.a, e1, y.a, f1);
    lemma_octet_unique(text, e1 + 1, x.b, e2, y.b, f2);
    lemma_octet_unique(text, e2 + 1, x.c, e3, y.c, f3);
    lemma_octet_unique(text, e3 + 1, x.d, text.len() as int, y.d, text.len() as int);
}

/// Reading the dotted notation of an address gives the address.
pub proof fn dotted_address_is_read_back(ip: Ipv4)
    ensures
        ipv4_of(dotted(ip)) == Some(ip),
{
    let chosen = choose|other: Ipv4| dotted(ip) == #[trigger] dotted(other);
    lemma_dotted_injective(ip, chosen);
}

/// Reads the octet at a place of a text, up to where its digits end.
fn parse_octet(chars: &Vec<char>, at: usize) -> (octet: Option<(u8, usize)>)
    requires
        at <= chars.len(),
    ensures
        match octet {
            Some((n, end)) => octet_at(chars@, at as int, n, end as int),
            None => forall|n: u8, end: int| !octet_at(chars@, at as int, n, end),
        },
{
    let mut end: usize = at;
    while end < chars.len() && '0' <= chars[end] && chars[end] <= '9'
        invariant
            at <= end <= chars.len(),
            forall|i: int| at <= i < end ==> is_digit(#[trigger] chars@[i]),
        decreases chars.len() - end,
    {
        end = end + 1;
    }
    assert forall|n: u8, stop: int| octet_at(chars@, at as int, n, stop) implies stop == end by {
        lemma_octet_text(n);
        if end < stop {
            assert(chars@.subrange(at as int, stop)[end - at] == chars@[end as int]);
        }
    }
    assert forall|n: u8| #[trigger] octet_at(chars@, at as int, n, end as int) implies octet_text(
        n,
    ).len() == end - at && 1 <= end - at <= 3 && (forall|i: int|
        0 <= i < end - at ==> chars@[at + i] == #[trigger] octet_text(n)[i]) by {
        lemma_octet_text(n);
        let run = chars@.subrange(at as int, end as int);
        assert forall|i: int| 0 <= i < end - at implies chars@[at + i] == #[trigger] octet_text(
            n,
        )[i] by {
            assert(run[i] == chars@[at + i]);
        }
    }
    let run: usize = end - at;
    let ghost stretch = chars@.subrange(at as int, end as int);
    if run == 1 {
        let n: u8 = (chars[at] as u32 - '0' as u32) as u8;
        assert(stretch =~= octet_text(n));
        Some((n, end))
    } else if run == 2 {
        let tens: u8 = (chars[at] as u32 - '0' as u32) as u8;
        let ones: u8 = (chars[at + 1] as u32 - '0' as u32) as u8;
        if tens == 0 {
            assert forall|n: u8, stop: int| !octet_at(chars@, at as int, n, stop) by {
                assert(octet_text(n).len() == 2 ==> octet_text(n)[0] != '0');
            }
            return None;
        }
        let n: u8 = tens * 10 + ones;
        assert(stretch =~= octet_text(n));
        Some((n, end))
    } else if run == 3 {
        let hundreds: u32 = chars[at] as u32 - '0' as u32;
        let tens: u32 = chars[at + 1] as u32 - '0' as u32;
        let ones: u32 = chars[at + 2] as u32 - '0' as u32;
        let value: u32 = hundreds * 100 + tens * 10 + ones;
        if hundreds == 0 || value > 255 {
            assert forall|n: u8, stop: int| !octet_at(chars@, at as int, n, stop) by {
                if octet_at(chars@, at as int, n, end as int) {
                    assert(chars@[at + 0] == octet_text(n)[0]);
                    assert(chars@[at + 1] == octet_text(n)[1]);
                    assert(chars@[at + 2] == octet_text(n)[2]);
                }
            }
            return None;
        }
        let n: u8 = value as u8;
        assert(stretch =~= octet_text(n));
        Some((n, end))
    } else {
        None
    }
}

/// Reads the octet at a place of a text and the dot behind it.
fn parse_octet_and_dot(chars: &Vec<char>, at: usize) -> (octet: Option<(u8, usize)>)
    requires
        at <= chars.len(),
    ensures
        match octet {
            Some((n, end)) => octet_at(chars@, at as int, n, end as int) && end < chars.len()
                && chars@[end as int] == '.',
            None => forall|n: u8, end: int|
                #[trigger] octet_at(chars@, at as int, n, end) ==> end == chars.len() || chars@[end]
                    != '.',
        },
{
    match parse_octet(chars, at) {
        Some((n, end)) => {
            if end < chars.len() && chars[end] == '.' {
                Some((n, end))
            } else {
                proof {
                    assert forall|m: u8, stop: int| #[trigger]
                        octet_at(chars@, at as int, m, stop) implies stop == chars.len()
                        || chars@[stop] != '.' by {
                        lemma_octet_unique(chars@, at as int, n, end as int, m, stop);
                    }
                }
                None
            }
        },
        None => None,
    }
}

/// Reads an address in dotted notation: four octets in decimal, none with leading
/// zeros, with dots between them and nothing else.
pub fn parse_ipv4(text: &str) -> (ip: Option<Ipv4>)
    ensures
        ip == ipv4_of(text@),
{
    let chars: Vec<char> = chars_of(text);
    let (a, e1): (u8, usize) = match parse_octet_and_dot(&chars, 0) {
        Some(octet) => octet,
        None => {
            assert forall|ip: Ipv4| text@ != #[trigger] dotted(ip) by {
                lemma_dotted_octets(ip);
            }
            return None;
        },
    };
    let (b, e2): (u8, usize) = match parse_octet_and_dot(&chars, e1 + 1) {
        Some(octet) => octet,
        None => {
            assert forall|ip: Ipv4| text@ != #[trigger] dotted(ip) by {
                lemma_dotted_octets(ip);
                if text@ == dotted(ip) {
                    lemma_octet_unique(text@, 0, a, e1 as int, ip.a, octet_text(ip.a).len() as int);
                }
            }
            return None;
        },
    };
    let (c, e3): (u8, usize) = match parse_octet_and_dot(&chars, e2 + 1) {
        Some(octet) => octet,
        None => {
            assert forall|ip: Ipv4| text@ != #[trigger] dotted(ip) by {
                lemma_dotted_octets(ip);
                if text@ == dotted(ip) {
                    lemma_first_octets(text@, ip, a, e1 as int, b, e2 as int);
                }
            }
            return None;
        },
    };
    match parse_octet(&chars, e3 + 1) {
        Some((d, e4)) if e4 == chars.len() => {
            let ip: Ipv4 = Ipv4 { a, b, c, d };
            proof {
                lemma_octets_dotted(text@, ip, e1 as int, e2 as int, e3 as int);
                dotted_address_is_read_back(ip);
            }
            Some(ip)
        },
        last => {
            assert forall|ip: Ipv4| text@ != #[trigger] dotted(ip) by {
                lemma_dotted_octets(ip);
                if text@ == dotted(ip) {
                    lemma_first_octets(text@, ip, a, e1 as int, b, e2 as int);
                    let f3 = e2 + 1 + octet_text(ip.c).len();
                    lemma_octet_unique(text@, e2 + 1, c, e3 as int, ip.c, f3);
                    if let Some((d, e4)) = last {
                        lemma_octet_unique(text@, e3 + 1, d, e4 as int, ip.d, text@.len() as int);
                    }
                }
            }
            None
        },
    }
}

proof fn lemma_first_octets(text: Seq<char>, ip: Ipv4, a: u8, e1: int, b: u8, e2: int)
    requires
        text == dotted(ip),
        octet_at(text, 0, a, e1),
        octet_at(text, e1 + 1, b, e2),
    ensures
        e1 == octet_text(ip.a).len(),
        e2 == e1 + 1 + octet_text(ip.b).len(),
{
    lemma_dotted_octets(ip);
    lemma_octet_unique(text, 0, a, e1, ip.a, octet_text(ip.a).len() as int);
    lemma_octet_unique(text, e1 + 1, b, e2, ip.b, e1 + 1 + octet_text(ip.b).len());
}

/// Writes an octet in decimal notation.
fn push_octet(text: &mut String, n: u8)
    ensures
        final(text)@ == old(text)@ + octet_text(n),
{
    if n >= 100 {
        push_digit(text, n / 100);
    }
    if n >= 10 {
        push_digit(text, n / 10 % 10);
    }
    push_digit(text, n % 10);
    assert(text@ =~= old(text)@ + octet_text(n));
}

/// Writes a decimal digit.
fn push_digit(text: &mut String, digit: u8)
    requires
        digit < 10,
    ensures
        final(text)@ == old(text)@.push(digit_char(digit as int)),
{
    let digits: &str = "0123456789";
    proof {
        reveal_strlit("0123456789");
    }
    text.append(digits.substring_char(digit as usize, digit as usize + 1));
    assert(text@ =~= old(text)@.push(digit_char(digit as int)));
}

/// Writes an address in dotted notation.
pub fn ipv4_text(ip: Ipv4) -> (text: String)
    ensures
        text@ == dotted(ip),
{
    proof {
        reveal_strlit(".");
    }
    let mut text: String = String::new();
    push_octet(&mut text, ip.a);
    text.append(".");
    push_octet(&mut text, ip.b);
    text.append(".");
    push_octet(&mut text, ip.c);
    text.append(".");
    push_octet(&mut text, ip.d);
    assert("."@ =~= seq!['.']);
    assert(text@ =~= dotted(ip));
    text
}

/// Whether a text is the decimal notation of an octet: a number up to 255 without
/// leading zeros.
pub open spec fn is_octet(text: Seq<char>) -> bool {
    &&& crate::text::is_number(text)
    &&& crate::text::decimal_value(text) <= 255
    &&& text.len() > 1 ==> text[0] != '0'
}

/// Four texts with dots between them.
pub open spec fn with_dots(a: Seq<char>, b: Seq<char>, c: Seq<char>, d: Seq<char>) -> Seq<char> {
    a + seq!['.'] + b + seq!['.'] + c + seq!['.'] + d
}

/// The notation of an octet is one, and stands for this octet.
pub proof fn an_octet_is_written_in_decimal(n: u8)
    ensures
        is_octet(octet_text(n)),
        crate::text::decimal_value(octet_text(n)) == n,
{
    let text = octet_text(n);
    lemma_octet_text(n);
    assert(crate::text::decimal_value(Seq::empty()) == 0);
    let two = text.drop_last();
    let one = two.drop_last();
    if n < 10 {
        assert(two =~= Seq::empty());
    } else if n < 100 {
        assert(one =~= Seq::empty());
        assert(crate::text::decimal_value(two) == n / 10);
    } else {
        assert(one.drop_last() =~= Seq::empty());
        assert(crate::text::decimal_value(one) == n / 100);
        assert(crate::text::decimal_value(two) == n / 10);
    }
}

proof fn lemma_decimal_value_bounds(text: Seq<char>)
    requires
        crate::text::is_number(text),
        text.len() >= 4,
        text[0] != '0',
    ensures
        crate::text::decimal_value(text) >= 1000,
    decreases text.len(),
{
    let shorter = text.drop_last();
    assert forall|i: int| 0 <= i < shorter.len() implies is_digit(#[trigger] shorter[i]) by {
        assert(text[i] == shorter[i]);
    }
    assert(is_digit(text[0]));
    if text.len() > 4 {
        lemma_decimal_value_bounds(shorter);
    } else {
        let two = shorter.drop_last();
        let one = two.drop_last();
        assert(one.last() == text[0]);
        assert(crate::text::decimal_value(one) >= 1);
        assert(crate::text::decimal_value(two) >= 10);
        assert(crate::text::decimal_value(shorter) >= 100);
    }
}

proof fn lemma_octet_is_octet_text(text: Seq<char>)
    requires
        is_octet(text),
    ensures
        text == octet_text(crate::text::decimal_value(text) as u8),
{
    if text.len() >= 4 {
        lemma_decimal_value_bounds(text);
    }
    assert(is_digit(text[0]));
    assert(is_digit(text[text.len() - 1]));
    assert(crate::text::decimal_value(Seq::empty()) == 0);
    let two = text.drop_last();
    let one = two.drop_last();
    if text.len() == 1 {
        assert(two =~= Seq::empty());
    } else if text.len() == 2 {
        assert(one =~= Seq::empty());
        assert(crate::text::decimal_value(two) == text[0] as nat - 48);
    } else {
        assert(is_digit(text[1]));
        assert(one.drop_last() =~= Seq::empty());
        assert(crate::text::decimal_value(one) == text[0] as nat - 48);
        assert(crate::text::decimal_value(two) == 10 * (text[0] as nat - 48) + (text[1] as nat
            - 48));
    }
    assert(text =~= octet_text(crate::text::decimal_value(text) as u8));
}

/// Four octets in decimal notation with dots between them are read as the address that
/// is made of their values.
pub proof fn four_octets_are_an_address(
    a: Seq<char>,
    b: Seq<char>,
    c: Seq<char>,
    d: Seq<char>,
    ip: Ipv4,
)
    requires
        is_octet(a) && crate::text::decimal_value(a) == ip.a,
        is_octet(b) && crate::text::decimal_value(b) == ip.b,
        is_octet(c) && crate::text::decimal_value(c) == ip.c,
        is_octet(d) && crate::text::decimal_value(d) == ip.d,
    ensures
        ipv4_of(with_dots(a, b, c, d)) == Some(ip),
{
    lemma_octet_is_octet_text(a);
    lemma_octet_is_octet_text(b);
    lemma_octet_is_octet_text(c);
    lemma_octet_is_octet_text(d);
    dotted_address_is_read_back(ip);
}

/// What is read as an address is four octets in decimal notation with dots between them.
pub proof fn only_four_octets_are_an_address(text: Seq<char>)
    requires
        ipv4_of(text) is Some,
    ensures
        exists|a: Seq<char>, b: Seq<char>, c: Seq<char>, d: Seq<char>|
            text == #[trigger] with_dots(a, b, c, d) && is_octet(a) && is_octet(b) && is_octet(c)
                && is_octet(d),
{
    let ip = choose|ip: Ipv4| text == #[trigger] dotted(ip);
    an_octet_is_written_in_decimal(ip.a);
    an_octet_is_written_in_decimal(ip.b);
    an_octet_is_written_in_decimal(ip.c);
    an_octet_is_written_in_decimal(ip.d);
    assert(text == with_dots(
        octet_text(ip.a),
        octet_text(ip.b),
        octet_text(ip.c),
        octet_text(ip.d),
    ));
}

/// An address is written as its four octets in decimal notation with dots between them.
pub proof fn an_address_is_written_as_four_octets(ip: Ipv4)
    ensures
        exists|a: Seq<char>, b: Seq<char>, c: Seq<char>, d: Seq<char>|
            dotted(ip) == #[trigger] with_dots(a, b, c, d) && is_octet(a) && is_octet(b)
                && is_octet(c) && is_octet(d) && crate::text::decimal_value(a) == ip.a
                && crate::text::decimal_value(b) == ip.b && crate::text::decimal_value(c) == ip.c
                && crate::text::decimal_value(d) == ip.d,
{
    an_octet_is_written_in_decimal(ip.a);
    an_octet_is_written_in_decimal(ip.b);
    an_octet_is_written_in_decimal(ip.c);
    an_octet_is_written_in_decimal(ip.d);
    assert(dotted(ip) == with_dots(
        octet_text(ip.a),
        octet_text(ip.b),
        octet_text(ip.c),
        octet_text(ip.d),
    ));
}

} // verus!
