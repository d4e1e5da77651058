use r357::icy::{IcySource, ReadAction, ReadEvent};

/// A connection that hands out at most `burst` bytes at a time.
struct Connection {
    bytes: Vec<u8>,
    at: usize,
    burst: usize,
}

impl Connection {
    fn new(bytes: &[u8], burst: usize) -> Self {
        Connection { bytes: bytes.to_vec(), at: 0, burst }
    }

    fn take(&mut self, len: usize) -> Vec<u8> {
        let n = len.min(self.burst).min(self.bytes.len() - self.at);
        self.at += n;
        self.bytes[self.at - n..self.at].to_vec()
    }

    fn take_exact(&mut self, len: usize) -> Option<Vec<u8>> {
        if self.bytes.len() - self.at < len {
            self.at = self.bytes.len();
            return None;
        }
        self.at += len;
        Some(self.bytes[self.at - len..self.at].to_vec())
    }
}

/// One read of audio; `None` if the connection broke within metadata.
fn read(
    source: &mut IcySource,
    connection: &mut Connection,
    want: usize,
    blocks: &mut Vec<Vec<u8>>,
) -> Option<Vec<u8>> {
    let mut out = vec![0u8; want];
    let mut action = source.read(want);
    loop {
        let event = match action {
            ReadAction::Audio { at, len } => {
                let bytes = connection.take(len);
                out[at..at + bytes.len()].copy_from_slice(&bytes);
                ReadEvent::Audio(bytes.len())
            }
            ReadAction::MetaLength => ReadEvent::MetaLength(connection.take_exact(1)?[0]),
            ReadAction::MetaBlock { len } => {
                blocks.push(connection.take_exact(len)?);
                ReadEvent::MetaBlock
            }
            ReadAction::Done { total } => {
                out.truncate(total);
                return Some(out);
            }
        };
        action = source.resume(event);
    }
}

/// Four bytes of audio between blocks; the second block has sixteen bytes.
fn sample_stream() -> Vec<u8> {
    let mut stream = vec![1, 2, 3, 4, 0, 5, 6, 7, 8, 1];
    stream.extend_from_slice(b"StreamTitle='a';");
    stream.extend_from_slice(&[9, 10, 11, 12, 0]);
    stream
}

#[test]
fn first_actions_of_a_read() {
    let mut source = IcySource::new(Some(4));
    assert_eq!(source.read(10), ReadAction::Audio { at: 0, len: 4 });
    assert_eq!(source.resume(ReadEvent::Audio(3)), ReadAction::Audio { at: 3, len: 1 });
    assert_eq!(source.resume(ReadEvent::Audio(1)), ReadAction::MetaLength);
    assert_eq!(source.resume(ReadEvent::MetaLength(2)), ReadAction::MetaBlock { len: 32 });
    assert_eq!(source.resume(ReadEvent::MetaBlock), ReadAction::Audio { at: 4, len: 4 });
    assert_eq!(source.resume(ReadEvent::Audio(4)), ReadAction::MetaLength);
    assert_eq!(source.resume(ReadEvent::MetaLength(0)), ReadAction::Audio { at: 8, len: 2 });
    assert_eq!(source.resume(ReadEvent::Audio(2)), ReadAction::Done { total: 10 });
}

#[test]
fn longest_metadata_block() {
    let mut source = IcySource::new(Some(1));
    assert_eq!(source.read(2), ReadAction::Audio { at: 0, len: 1 });
    assert_eq!(source.resume(ReadEvent::Audio(1)), ReadAction::MetaLength);
    assert_eq!(source.resume(ReadEvent::MetaLength(255)), ReadAction::MetaBlock { len: 4080 });
}

#[test]
fn metadata_waits_for_the_next_reader() {
    let mut source = IcySource::new(Some(4));
    assert_eq!(source.read(4), ReadAction::Audio { at: 0, len: 4 });
    assert_eq!(source.resume(ReadEvent::Audio(4)), ReadAction::Done { total: 4 });
    assert_eq!(source.read(4), ReadAction::MetaLength);
}

#[test]
fn audio_comes_without_metadata() {
    for burst in 1..9 {
        for want in 1..14 {
            let mut source = IcySource::new(Some(4));
            let mut connection = Connection::new(&sample_stream(), burst);
            let mut heard = Vec::new();
            let mut blocks = Vec::new();
            for _ in 0..20 {
                heard.extend_from_slice(
                    &read(&mut source, &mut connection, want, &mut blocks).unwrap(),
                );
            }
            assert_eq!(heard, vec![1, 2, 3, 4, 5, 6, 7, 8, 9, 10, 11, 12]);
            assert_eq!(blocks, vec![b"StreamTitle='a';".to_vec()]);
        }
    }
}

#[test]
fn a_read_is_full_while_the_stream_lasts() {
    let mut source = IcySource::new(Some(4));
    let mut connection = Connection::new(&sample_stream(), 3);
    let mut blocks = Vec::new();
    assert_eq!(read(&mut source, &mut connection, 7, &mut blocks), Some(vec![1, 2, 3, 4, 5, 6, 7]));
    assert_eq!(read(&mut source, &mut connection, 5, &mut blocks), Some(vec![8, 9, 10, 11, 12]));
    assert_eq!(blocks.len(), 1);
}

#[test]
fn a_read_is_short_at_the_end() {
    let mut source = IcySource::new(Some(4));
    let mut connection = Connection::new(&[1, 2, 3], 10);
    let mut blocks = Vec::new();
    assert_eq!(read(&mut source, &mut connection, 10, &mut blocks), Some(vec![1, 2, 3]));
    assert_eq!(read(&mut source, &mut connection, 10, &mut blocks), Some(vec![]));
}

#[test]
fn without_metaint_all_is_audio() {
    let mut source = IcySource::new(None);
    let mut connection = Connection::new(&[1, 0, 2, 0, 3], 2);
    let mut blocks = Vec::new();
    assert_eq!(read(&mut source, &mut connection, 4, &mut blocks), Some(vec![1, 0]));
    assert_eq!(read(&mut source, &mut connection, 1, &mut blocks), Some(vec![2]));
    assert_eq!(read(&mut source, &mut connection, 0, &mut blocks), Some(vec![]));
    assert_eq!(read(&mut source, &mut connection, 9, &mut blocks), Some(vec![0, 3]));
    assert!(blocks.is_empty());
}

#[test]
fn nothing_is_asked_for_an_empty_read() {
    let mut source = IcySource::new(Some(4));
    assert_eq!(source.read(0), ReadAction::Done { total: 0 });
}

#[test]
fn a_metaint_of_zero_gives_no_audio() {
    let mut source = IcySource::new(Some(0));
    assert_eq!(source.read(5), ReadAction::MetaLength);
    assert_eq!(source.resume(ReadEvent::MetaLength(0)), ReadAction::Audio { at: 0, len: 0 });
    assert_eq!(source.resume(ReadEvent::Audio(0)), ReadAction::Done { total: 0 });
    assert_eq!(source.read(5), ReadAction::MetaLength);
}

#[test]
fn a_read_that_was_given_up_is_started_anew() {
    let mut source = IcySource::new(Some(4));
    source.read(6);
    assert_eq!(source.resume(ReadEvent::Audio(4)), ReadAction::MetaLength);
    assert_eq!(source.read(6), ReadAction::MetaLength);
    assert_eq!(source.resume(ReadEvent::MetaLength(1)), ReadAction::MetaBlock { len: 16 });
    assert_eq!(source.read(3), ReadAction::MetaLength);
    assert_eq!(source.resume(ReadEvent::MetaLength(0)), ReadAction::Audio { at: 0, len: 3 });
}

#[test]
fn a_connection_that_breaks_within_metadata() {
    let mut source = IcySource::new(Some(2));
    let mut connection = Connection::new(&[1, 2, 1, 0, 0], 10);
    let mut blocks = Vec::new();
    assert_eq!(read(&mut source, &mut connection, 2, &mut blocks), Some(vec![1, 2]));
    assert_eq!(read(&mut source, &mut connection, 2, &mut blocks), None);
    assert!(blocks.is_empty());
}

#[test]
fn a_live_stream_has_no_end_and_no_way_back() {
    let source = IcySource::new(Some(16000));
    assert!(!source.is_seekable());
    assert_eq!(source.byte_len(), None);
}
