use r357::player::PlayerState;
use r357::title::{parse_title, title_in_text};

fn block(text: &[u8]) -> Vec<u8> {
    let mut bytes = text.to_vec();
    while bytes.len() % 16 != 0 {
        bytes.push(0);
    }
    bytes
}

fn title(text: &str) -> Option<String> {
    parse_title(&block(text.as_bytes()))
}

#[test]
fn title_of_a_padded_block() {
    assert_eq!(title("StreamTitle='Artist - Song';"), Some("Artist - Song".to_string()));
    assert_eq!(
        title("StreamTitle='Artist - Song';StreamUrl='http://example.org';"),
        Some("Artist - Song".to_string())
    );
    assert_eq!(title("StreamTitle='';"), Some(String::new()));
}

#[test]
fn title_need_not_come_first() {
    assert_eq!(title("StreamUrl='x';StreamTitle='y';"), Some("y".to_string()));
    assert_eq!(title(" StreamTitle='y';"), None);
}

#[test]
fn first_complete_title_counts() {
    assert_eq!(title("StreamTitle='a';StreamTitle='b';"), Some("a".to_string()));
    assert_eq!(title("StreamTitle='a;StreamTitle='b';"), Some("b".to_string()));
}

#[test]
fn a_title_ends_at_its_first_quote() {
    assert_eq!(title("StreamTitle='It's over';"), Some("It".to_string()));
}

#[test]
fn a_semicolon_breaks_a_title() {
    assert_eq!(title("StreamTitle='a;b';"), None);
}

#[test]
fn blocks_without_a_title() {
    assert_eq!(title(""), None);
    assert_eq!(title("StreamTitle='open"), None);
    assert_eq!(title("streamtitle='a';"), None);
    assert_eq!(parse_title(&[0; 32]), None);
    assert_eq!(parse_title(&[]), None);
}

#[test]
fn padding_is_cut_at_both_ends() {
    assert_eq!(title_in_text("\0\0StreamTitle='a'\0\0"), Some("a".to_string()));
    assert_eq!(title_in_text("StreamTitle='a\0b'\0"), Some("a\0b".to_string()));
    assert_eq!(title_in_text(";\0StreamTitle='a'"), None);
}

#[test]
fn padding_changes_no_title() {
    let blocks: [&[u8]; 4] =
        [b"StreamUrl='x';StreamTitle='y';", b"StreamTitle='open", b"\0", b"StreamTitle='caf\xe9'"];
    for bare in blocks {
        let padded = [b"\0\0\0", bare, b"\0\0"].concat();
        assert_eq!(parse_title(&padded), parse_title(bare));
    }
    assert_eq!(parse_title(b"\0StreamUrl='x';StreamTitle='y';\0\0"), Some("y".to_string()));
}

#[test]
fn titles_are_utf8() {
    assert_eq!(title("StreamTitle='Zażółć gęślą jaźń';"), Some("Zażółć gęślą jaźń".to_string()));
}

#[test]
fn bytes_that_are_not_utf8_are_replaced() {
    assert_eq!(
        parse_title(&block(b"StreamTitle='caf\xe9 noir';")),
        Some("caf\u{fffd} noir".to_string())
    );
}

#[test]
fn metadata_changes_the_title_once() {
    let mut state = PlayerState::new();
    state.start();
    assert!(state.apply_metadata(&block(b"StreamTitle='a';")));
    assert_eq!(state.song_title.as_deref(), Some("a"));
    assert!(!state.apply_metadata(&block(b"StreamTitle='a';")));
    assert!(!state.apply_metadata(&block(b"StreamUrl='a';")));
    assert_eq!(state.song_title.as_deref(), Some("a"));
    assert!(state.apply_metadata(&block(b"StreamTitle='b';")));
    assert_eq!(state.song_title.as_deref(), Some("b"));
    assert!(state.playing);
}
