//! What the daemon reads from the headers of the radio server's answer.

use vstd::prelude::*;

use crate::error::R357Error;
use crate::text::parse_usize;
#[allow(unused_imports)]
use crate::text::{decimal_value, is_number, without_plus};
use reqwest::header::{HeaderMap, HeaderValue, ToStrError};

verus! {

/// The header map of the HTTP client, a multimap from names to values.
#[verifier::external_type_specification]
#[verifier::external_body]
#[verifier::reject_recursive_types(T)]
pub struct ExHeaderMap<T>(HeaderMap<T>);

/// One header value of the HTTP client, a string of bytes.
#[verifier::external_type_specification]
#[verifier::external_body]
pub struct ExHeaderValue(HeaderValue);

/// The HTTP client's report that a header value is not text.
#[verifier::external_type_specification]
#[verifier::external_body]
pub struct ExToStrError(ToStrError);

/// The fields of a header map: for each name that can be asked for, in lower case, its
/// values in the order in which they were received.
pub uninterp spec fn header_fields(headers: HeaderMap<HeaderValue>) -> Map<Seq<char>, Seq<Seq<u8>>>;

/// The bytes that a header value is made of.
pub uninterp spec fn header_bytes(value: HeaderValue) -> Seq<u8>;

/// A character as it stands in the name of a stored header.
pub open spec fn lower_ascii(c: char) -> char {
    if 'A' <= c && c <= 'Z' {
        (c as u32 + 32) as char
    } else {
        c
    }
}

/// `HeaderMap::get`, asked by name: letter case does not matter, and of several
/// values the first is returned. A name that no header can have is not found.
#[verifier::external_body]
fn header_get<'a>(headers: &'a HeaderMap<HeaderValue>, name: &str) -> (found: Option<&'a HeaderValue>)
    ensures
        ({
            let key = name@.map_values(|c: char| lower_ascii(c));
            match found {
                Some(value) => {
                    &&& header_fields(*headers).contains_key(key)
                    &&& header_fields(*headers)[key].len() > 0
                    &&& header_bytes(*value) == header_fields(*headers)[key][0]
                },
                None => !header_fields(*headers).contains_key(key),
            }
        }),
{
    headers.get(name)
}

/// Whether a byte is a visible ASCII character, a space or a tab.
pub open spec fn is_header_text(byte: u8) -> bool {
    32 <= byte < 127 || byte == 9
}

/// `HeaderValue::to_str`: the value as text if all of it is visible ASCII (space
/// and tab included), an error otherwise.
#[verifier::external_body]
fn header_to_str(value: &HeaderValue) -> (text: Result<&str, ToStrError>)
    ensures
        text is Ok <==> forall|i: int|
            0 <= i < header_bytes(*value).len() ==> is_header_text(#[trigger] header_bytes(*value)[i]),
        text matches Ok(t) ==> t@ == header_bytes(*value).map_values(|byte: u8| byte as char),
{
    value.to_str()
}

/// `HeaderValue` compared with a text: equal if and only if the value is the
/// UTF-8 encoding of the text.
#[verifier::external_body]
fn header_is(value: &HeaderValue, text: &str) -> (equal: bool)
    ensures
        equal == (header_bytes(*value) == vstd::utf8::encode_utf8(text@)),
{
    *value == *text
}

/// The value that counts of a header that may have been sent several times.
pub open spec fn first_value(headers: HeaderMap<HeaderValue>, name: Seq<char>) -> Option<Seq<u8>> {
    if header_fields(headers).contains_key(name) {
        Some(header_fields(headers)[name][0])
    } else {
        None
    }
}

/// A header value as text, if it is text.
pub open spec fn header_text(value: Seq<u8>) -> Option<Seq<char>> {
    if forall|i: int| 0 <= i < value.len() ==> is_header_text(#[trigger] value[i]) {
        Some(value.map_values(|byte: u8| byte as char))
    } else {
        None
    }
}

/// How many audio bytes stand between two metadata blocks, given the text of the
/// metaint header. `None` inside the option is a value that is not text.
pub open spec fn metaint_of(header: Option<Option<Seq<char>>>) -> Result<Option<usize>, R357Error> {
    match header {
        None => Ok(None),
        Some(Some(text)) if is_number(without_plus(text)) && decimal_value(without_plus(text))
            <= usize::MAX => Ok(Some(decimal_value(without_plus(text)) as usize)),
        _ => Err(R357Error::BadMetaIntHeader),
    }
}

/// Reads the metaint interval from the text of its header. A stream without the
/// header carries no metadata.
pub fn metaint_from_text(header: Option<Option<&str>>) -> (metaint: Result<Option<usize>, R357Error>)
    ensures
        metaint == metaint_of(
            match header {
                Some(Some(text)) => Some(Some(text@)),
                Some(None) => Some(None),
                None => None,
            },
        ),
{
    match header {
        None => Ok(None),
        Some(None) => Err(R357Error::BadMetaIntHeader),
        Some(Some(text)) => match parse_usize(text) {
            Some(interval) => Ok(Some(interval)),
            None => Err(R357Error::BadMetaIntHeader),
        },
    }
}

/// What the metaint header of an answer says: `Ok(None)` without the header,
/// `BadMetaIntHeader` if its first value is not a number that fits.
pub open spec fn metaint_in(headers: HeaderMap<HeaderValue>) -> Result<Option<usize>, R357Error> {
    metaint_of(
        match first_value(headers, "icy-metaint"@) {
            Some(value) => Some(header_text(value)),
            None => None,
        },
    )
}

/// Reads the metaint interval from the headers of an answer.
pub fn parse_metaint_header(headers: &HeaderMap<HeaderValue>) -> (metaint: Result<Option<usize>, R357Error>)
    ensures
        metaint == metaint_in(*headers),
{
    proof {
        reveal_strlit("Icy-Metaint");
        reveal_strlit("icy-metaint");
        assert("Icy-Metaint"@.map_values(|c: char| lower_ascii(c)) =~= "icy-metaint"@);
    }
    match header_get(headers, "Icy-Metaint") {
        None => metaint_from_text(None),
        Some(value) => match header_to_str(value) {
            Ok(text) => metaint_from_text(Some(Some(text))),
            Err(_) => metaint_from_text(Some(None)),
        },
    }
}

/// Whether a status code reports success.
pub open spec fn is_success(status: u16) -> bool {
    200 <= status < 300
}

/// Decides whether an answer is the stream that was asked for. `content_is_mpeg`
/// is `None` where the answer does not say what it contains.
pub fn accept_stream(status: u16, content_is_mpeg: Option<bool>) -> (accepted: Result<(), R357Error>)
    ensures
        accepted == (if is_success(status) && content_is_mpeg == Some(true) {
            Ok::<(), R357Error>(())
        } else {
            Err(R357Error::NotMp3Stream)
        }),
{
    if status < 200 || 300 <= status {
        return Err(R357Error::NotMp3Stream);
    }
    match content_is_mpeg {
        Some(true) => Ok(()),
        _ => Err(R357Error::NotMp3Stream),
    }
}

/// Judges the head of the radio server's answer. It must report success and
/// announce `audio/mpeg`, else it is no mp3 stream; then the metaint header
/// decides.
pub fn check_response(status: u16, headers: &HeaderMap<HeaderValue>) -> (metaint: Result<
    Option<usize>,
    R357Error,
>)
    ensures
        metaint == (if is_success(status) && first_value(*headers, "content-type"@) == Some(
            vstd::utf8::encode_utf8("audio/mpeg"@),
        ) {
            metaint_in(*headers)
        } else {
            Err(R357Error::NotMp3Stream)
        }),
{
    proof {
        reveal_strlit("content-type");
        assert("content-type"@.map_values(|c: char| lower_ascii(c)) =~= "content-type"@);
    }
    let content_is_mpeg: Option<bool> = match header_get(headers, "content-type") {
        None => None,
        Some(value) => Some(header_is(value, "audio/mpeg")),
    };
    match accept_stream(status, content_is_mpeg) {
        Err(e) => Err(e),
        Ok(()) => parse_metaint_header(headers),
    }
}

/// A stream has no interval if and only if there is no header that gives one. A header
/// that gives none is an error, and always the same.
pub proof fn no_interval_only_without_the_header(header: Option<Option<Seq<char>>>)
    ensures
        metaint_of(header) == Ok::<Option<usize>, R357Error>(None) <==> header is None,
        metaint_of(header) matches Err(e) ==> e == R357Error::BadMetaIntHeader,
        header == Some(None::<Seq<char>>) ==> metaint_of(header) is Err,
{
}

/// However an interval is written, it is the interval.
pub proof fn every_interval_is_read(plus: bool, zeros: nat, interval: usize)
    ensures
        metaint_of(Some(Some(crate::text::notation(plus, zeros, interval as nat)))) == Ok::<
            Option<usize>,
            R357Error,
        >(Some(interval)),
{
    crate::text::every_notation_is_read(plus, zeros, interval as nat);
}

/// A text is taken for an interval only if it is a notation of this interval.
pub proof fn only_a_notation_is_an_interval(text: Seq<char>, interval: usize)
    requires
        metaint_of(Some(Some(text))) == Ok::<Option<usize>, R357Error>(Some(interval)),
    ensures
        exists|plus: bool, zeros: nat|
            text == #[trigger] crate::text::notation(plus, zeros, interval as nat),
{
    crate::text::only_a_notation_is_read(text);
}

/// A text as the bytes of a header value.
pub open spec fn ascii_bytes(text: Seq<char>) -> Seq<u8> {
    text.map_values(|c: char| c as u8)
}

/// A value is text if and only if each of its bytes is a tab or lies between the space
/// and the tilde, and then each byte gives the character with its number.
pub proof fn header_text_is_visible_ascii(value: Seq<u8>)
    ensures
        header_text(value) is Some <==> forall|i: int|
            0 <= i < value.len() ==> ((#[trigger] value[i]) == 9 || 32 <= value[i] <= 126),
        header_text(value) matches Some(text) ==> text.len() == value.len() && forall|i: int|
            0 <= i < value.len() ==> (#[trigger] text[i]) as int == value[i] as int,
{
    assert forall|i: int| 0 <= i < value.len() implies is_header_text(#[trigger] value[i]) == (
    value[i] == 9 || 32 <= value[i] <= 126) by {}
    if header_text(value) is Some {
        assert forall|i: int| 0 <= i < value.len() implies (value[i] == 9 || 32 <= value[i]
            <= 126) by {
            assert(is_header_text(value[i]));
        }
    }
}

/// An answer gives no interval if and only if it has no metaint header. If it has, and
/// the first value is a notation of an interval, it gives this interval; else it is bad.
pub proof fn the_first_metaint_header_gives_the_interval(
    headers: HeaderMap<HeaderValue>,
    plus: bool,
    zeros: nat,
    interval: usize,
)
    ensures
        ({
            let fields = header_fields(headers);
            let name = "icy-metaint"@;
            &&& metaint_in(headers) == Ok::<Option<usize>, R357Error>(None)
                <==> !fields.contains_key(name)
            &&& fields.contains_key(name) && fields[name][0] == ascii_bytes(
                crate::text::notation(plus, zeros, interval as nat),
            ) ==> metaint_in(headers) == Ok::<Option<usize>, R357Error>(Some(interval))
            &&& metaint_in(headers) matches Err(e) ==> e == R357Error::BadMetaIntHeader
        }),
{
    let text = crate::text::notation(plus, zeros, interval as nat);
    let value = ascii_bytes(text);
    every_interval_is_read(plus, zeros, interval);
    crate::text::every_notation_is_read(plus, zeros, interval as nat);
    assert forall|i: int| 0 <= i < text.len() implies text[i] == '+' || crate::text::is_digit(
        #[trigger] text[i],
    ) by {
        let digits = without_plus(text);
        if text[0] == '+' && i > 0 {
            assert(digits[i - 1] == text[i]);
        } else if text[0] != '+' {
            assert(digits[i] == text[i]);
        }
    }
    assert forall|i: int| 0 <= i < value.len() implies is_header_text(#[trigger] value[i]) by {
        assert(text[i] == '+' || crate::text::is_digit(text[i]));
    }
    assert(value.map_values(|byte: u8| byte as char) =~= text) by {
        assert forall|i: int| 0 <= i < text.len() implies (value[i] as char) == text[i] by {
            assert(text[i] == '+' || crate::text::is_digit(text[i]));
        }
    }
}

/// An answer gives an interval only if its first metaint header is a notation of it.
pub proof fn an_interval_comes_from_the_metaint_header(
    headers: HeaderMap<HeaderValue>,
    interval: usize,
)
    requires
        metaint_in(headers) == Ok::<Option<usize>, R357Error>(Some(interval)),
    ensures
        header_fields(headers).contains_key("icy-metaint"@),
        exists|plus: bool, zeros: nat|
            header_fields(headers)["icy-metaint"@][0] == ascii_bytes(
                #[trigger] crate::text::notation(plus, zeros, interval as nat),
            ),
{
    let value = header_fields(headers)["icy-metaint"@][0];
    let text = value.map_values(|byte: u8| byte as char);
    only_a_notation_is_an_interval(text, interval);
    let (plus, zeros) = choose|plus: bool, zeros: nat|
        text == #[trigger] crate::text::notation(plus, zeros, interval as nat);
    assert(value =~= ascii_bytes(text)) by {
        assert forall|i: int| 0 <= i < value.len() implies value[i] == ascii_bytes(text)[i] by {
            assert(is_header_text(value[i]));
        }
    }
    assert(value == ascii_bytes(crate::text::notation(plus, zeros, interval as nat)));
}

/// The value that counts is the first one under the name, and there is one if and only
/// if the name is there.
pub proof fn the_first_value_counts(headers: HeaderMap<HeaderValue>, name: Seq<char>)
    ensures
        first_value(headers, name) is Some <==> header_fields(headers).contains_key(name),
        first_value(headers, name) matches Some(value) ==> value == header_fields(headers)[name][0],
{
}

/// The status codes of success are those of three digits that begin with a two.
pub proof fn success_begins_with_two(status: u16)
    ensures
        is_success(status) <==> status / 100 == 2,
{
}

} // verus!
