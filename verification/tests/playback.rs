use r357::error::R357Error;
use r357::playback::{
    advance, begin, pcm_bytes, select_track, PlayEvent, PlayStage, ICY_REQUEST_HEADER,
    ICY_REQUEST_VALUE, SINK_CHANNELS, SINK_RATE, STREAM_BUFFER_LEN, STREAM_MIME_TYPE,
};

fn failed() -> PlayEvent {
    PlayEvent::Failed("cause".to_string())
}

#[test]
fn an_attempt_that_is_cancelled_at_once() {
    assert!(matches!(begin(true), PlayStage::Finished(Ok(()))));
}

#[test]
fn an_attempt_from_beginning_to_end() {
    let stage = begin(false);
    assert!(matches!(stage, PlayStage::Connect));
    let stage = advance(stage, PlayEvent::Answered(Ok(Some(16000))));
    assert!(matches!(stage, PlayStage::Probe { metaint: Some(16000) }));
    let stage = advance(stage, PlayEvent::Probed { track: 3 });
    assert!(matches!(stage, PlayStage::BuildDecoder { track: 3 }));
    let stage = advance(stage, PlayEvent::Completed);
    assert!(matches!(stage, PlayStage::OpenSink));
    let stage = advance(stage, PlayEvent::Completed);
    assert!(matches!(stage, PlayStage::Poll { started: false }));
    let stage = advance(stage, PlayEvent::Cancelled(false));
    assert!(matches!(stage, PlayStage::Decode { started: false }));
    let stage = advance(stage, PlayEvent::Completed);
    assert!(matches!(stage, PlayStage::Play { allocate: true }));
    let stage = advance(stage, PlayEvent::Completed);
    assert!(matches!(stage, PlayStage::Poll { started: true }));
    let stage = advance(stage, PlayEvent::Cancelled(false));
    assert!(matches!(stage, PlayStage::Decode { started: true }));
    let stage = advance(stage, PlayEvent::Completed);
    assert!(matches!(stage, PlayStage::Play { allocate: false }));
    let stage = advance(stage, PlayEvent::Completed);
    let stage = advance(stage, PlayEvent::Cancelled(true));
    assert!(matches!(stage, PlayStage::Finished(Ok(()))));
}

#[test]
fn failures_of_the_stages() {
    let text = |stage: PlayStage| match advance(stage, failed()) {
        PlayStage::Finished(Err(e)) => e.message(),
        other => panic!("{:?}", other),
    };
    assert_eq!(text(PlayStage::Connect), "Connect error: cause");
    assert_eq!(text(PlayStage::Probe { metaint: None }), "Symphonia error: cause");
    assert_eq!(text(PlayStage::BuildDecoder { track: 0 }), "Symphonia error: cause");
    assert_eq!(text(PlayStage::OpenSink), "PulseAudio error: cause");
    assert_eq!(text(PlayStage::Decode { started: true }), "Symphonia error: cause");
    assert_eq!(text(PlayStage::Play { allocate: false }), "PulseAudio error: cause");
}

#[test]
fn an_answer_that_is_refused() {
    assert!(matches!(
        advance(begin(false), PlayEvent::Answered(Err(R357Error::NotMp3Stream))),
        PlayStage::Finished(Err(R357Error::NotMp3Stream))
    ));
}

#[test]
fn the_first_track_with_a_codec() {
    assert_eq!(select_track(&vec![false, true, true]), Some(1));
    assert_eq!(select_track(&vec![true]), Some(0));
    assert_eq!(select_track(&vec![false, false]), None);
    assert_eq!(select_track(&vec![]), None);
}

#[test]
fn samples_as_bytes() {
    let samples = [0i16, 1, -1, 258, i16::MIN, i16::MAX];
    let mut expected = Vec::new();
    for sample in samples {
        expected.extend_from_slice(&sample.to_ne_bytes());
    }
    assert_eq!(pcm_bytes(&samples), expected.as_slice());
    assert!(pcm_bytes(&[]).is_empty());
}

#[test]
fn parameters() {
    assert_eq!((ICY_REQUEST_HEADER, ICY_REQUEST_VALUE), ("Icy-MetaData", "1"));
    assert_eq!(STREAM_MIME_TYPE, "audio/mpeg");
    assert_eq!(STREAM_BUFFER_LEN, 256 * 1024);
    assert_eq!((SINK_CHANNELS, SINK_RATE), (2, 44100));
}
