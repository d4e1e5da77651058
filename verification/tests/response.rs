use r357::error::R357Error;
use r357::headers::{
    accept_stream, check_response, metaint_from_text, parse_metaint_header,
};
use reqwest::header::{HeaderMap, HeaderValue};

fn headers(fields: &[(&'static str, &str)]) -> HeaderMap {
    let mut map = HeaderMap::new();
    for (name, value) in fields {
        map.append(*name, HeaderValue::from_str(value).unwrap());
    }
    map
}

fn metaint(value: &str) -> Result<Option<usize>, R357Error> {
    parse_metaint_header(&headers(&[("icy-metaint", value)]))
}

#[test]
fn metaint_is_a_number() {
    assert!(matches!(metaint("16000"), Ok(Some(16000))));
    assert!(matches!(metaint("0"), Ok(Some(0))));
    assert!(matches!(metaint("+16"), Ok(Some(16))));
    assert!(matches!(metaint("0016"), Ok(Some(16))));
    assert!(matches!(metaint("18446744073709551615"), Ok(Some(usize::MAX))));
}

#[test]
fn bad_metaint() {
    for value in ["", "+", "-1", "-0", "++1", "1 ", " 1", "1_000", "0x10", "1.5", "many"] {
        assert!(matches!(metaint(value), Err(R357Error::BadMetaIntHeader)), "{}", value);
    }
    assert!(matches!(metaint("18446744073709551616"), Err(R357Error::BadMetaIntHeader)));
    assert!(matches!(metaint("99999999999999999999"), Err(R357Error::BadMetaIntHeader)));
}

#[test]
fn metaint_that_is_not_text() {
    let mut map = HeaderMap::new();
    map.insert("icy-metaint", HeaderValue::from_bytes(b"16\xff").unwrap());
    assert!(matches!(parse_metaint_header(&map), Err(R357Error::BadMetaIntHeader)));
    assert!(matches!(metaint_from_text(Some(None)), Err(R357Error::BadMetaIntHeader)));
}

#[test]
fn no_metaint() {
    assert!(matches!(parse_metaint_header(&HeaderMap::new()), Ok(None)));
    assert!(matches!(parse_metaint_header(&headers(&[("icy-name", "16")])), Ok(None)));
    assert!(matches!(metaint_from_text(None), Ok(None)));
}

#[test]
fn first_metaint_counts() {
    let map = headers(&[("icy-metaint", "8"), ("icy-metaint", "x")]);
    assert!(matches!(parse_metaint_header(&map), Ok(Some(8))));
    let map = headers(&[("icy-metaint", "x"), ("icy-metaint", "8")]);
    assert!(matches!(parse_metaint_header(&map), Err(R357Error::BadMetaIntHeader)));
}

#[test]
fn an_mp3_stream_is_accepted() {
    let map = headers(&[("content-type", "audio/mpeg"), ("icy-metaint", "16000")]);
    assert!(matches!(check_response(200, &map), Ok(Some(16000))));
    assert!(matches!(check_response(206, &map), Ok(Some(16000))));
    assert!(matches!(check_response(299, &map), Ok(Some(16000))));
    let map = headers(&[("content-type", "audio/mpeg")]);
    assert!(matches!(check_response(200, &map), Ok(None)));
}

#[test]
fn other_answers_are_no_mp3_stream() {
    let map = headers(&[("content-type", "audio/mpeg"), ("icy-metaint", "x")]);
    for status in [100, 199, 300, 301, 404, 500] {
        assert!(matches!(check_response(status, &map), Err(R357Error::NotMp3Stream)));
    }
    for content in ["audio/aac", "audio/mpeg; charset=utf-8", "AUDIO/MPEG", "audio/mpe", ""] {
        let map = headers(&[("content-type", content)]);
        assert!(matches!(check_response(200, &map), Err(R357Error::NotMp3Stream)), "{}", content);
    }
    assert!(matches!(check_response(200, &HeaderMap::new()), Err(R357Error::NotMp3Stream)));
}

#[test]
fn a_bad_metaint_is_noticed_last() {
    let map = headers(&[("content-type", "audio/mpeg"), ("icy-metaint", "x")]);
    assert!(matches!(check_response(200, &map), Err(R357Error::BadMetaIntHeader)));
    assert!(matches!(check_response(404, &map), Err(R357Error::NotMp3Stream)));
}

#[test]
fn success_and_content_decide() {
    assert!(accept_stream(200, Some(true)).is_ok());
    assert!(matches!(accept_stream(200, Some(false)), Err(R357Error::NotMp3Stream)));
    assert!(matches!(accept_stream(200, None), Err(R357Error::NotMp3Stream)));
    assert!(matches!(accept_stream(302, Some(true)), Err(R357Error::NotMp3Stream)));
}
