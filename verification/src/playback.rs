//! One attempt to play the stream.
//!
//! An attempt connects to the station, finds the audio track, opens the decoder and
//! the sound server, and then decodes and plays packet after packet until it is
//! cancelled. [`PlayStage`] is what is to be done next, [`PlayEvent`] what came of
//! it, and [`advance`] decides how to go on.

use vstd::prelude::*;

use crate::error::R357Error;

verus! {

/// The request header that asks a station for metadata, and its value.
pub const ICY_REQUEST_HEADER: &'static str = "Icy-MetaData";

pub const ICY_REQUEST_VALUE: &'static str = "1";

/// What the stream contains.
pub const STREAM_MIME_TYPE: &'static str = "audio/mpeg";

/// How many bytes of the stream are buffered.
pub const STREAM_BUFFER_LEN: usize = 262144;

/// The samples that the sound server gets: how many channels, and how many samples
/// per second in each.
pub const SINK_CHANNELS: u8 = 2;

pub const SINK_RATE: u32 = 44100;

/// What is to be done next.
#[derive(Debug)]
pub enum PlayStage {
    /// Ask the station for the stream.
    Connect,
    /// Find out the format of the stream, which has metadata at the given interval.
    Probe { metaint: Option<usize> },
    /// Build the decoder of the given track.
    BuildDecoder { track: usize },
    /// Open the sound server.
    OpenSink,
    /// See whether the attempt has been cancelled.
    Poll { started: bool },
    /// Read and decode a packet.
    Decode { started: bool },
    /// Play the decoded samples, after making the sample buffer if `allocate` is set.
    Play { allocate: bool },
    /// The attempt is over.
    Finished(Result<(), R357Error>),
}

/// What came of a stage.
#[derive(Debug)]
pub enum PlayEvent {
    /// It failed, for the given reason.
    Failed(String),
    /// The station has answered, and its answer has been judged.
    Answered(Result<Option<usize>, R357Error>),
    /// The stream has the given track to play.
    Probed { track: usize },
    /// It is done.
    Completed,
    /// Whether the attempt has been cancelled.
    Cancelled(bool),
}

/// The failure of an attempt whose stage failed for the given reason.
pub open spec fn failure_of(stage: PlayStage, cause: String) -> R357Error {
    match stage {
        PlayStage::Connect => R357Error::ConnectError(cause),
        PlayStage::OpenSink => R357Error::PulseError(cause),
        PlayStage::Play { .. } => R357Error::PulseError(cause),
        _ => R357Error::DecodeError(cause),
    }
}

/// Whether an event can come of a stage.
pub open spec fn can_come_of(stage: PlayStage, event: PlayEvent) -> bool {
    match (stage, event) {
        (PlayStage::Finished(_), _) => false,
        (PlayStage::Poll { .. }, PlayEvent::Cancelled(_)) => true,
        (PlayStage::Poll { .. }, _) => false,
        (_, PlayEvent::Failed(_)) => true,
        (PlayStage::Connect, PlayEvent::Answered(_)) => true,
        (PlayStage::Probe { .. }, PlayEvent::Probed { .. }) => true,
        (PlayStage::BuildDecoder { .. }, PlayEvent::Completed) => true,
        (PlayStage::OpenSink, PlayEvent::Completed) => true,
        (PlayStage::Decode { .. }, PlayEvent::Completed) => true,
        (PlayStage::Play { .. }, PlayEvent::Completed) => true,
        _ => false,
    }
}

/// The stage that an attempt begins with.
pub open spec fn first_stage(cancelled: bool) -> PlayStage {
    if cancelled {
        PlayStage::Finished(Ok(()))
    } else {
        PlayStage::Connect
    }
}

/// The stage that follows a stage.
pub open spec fn stage_after(stage: PlayStage, event: PlayEvent) -> PlayStage {
    match event {
        PlayEvent::Failed(cause) => PlayStage::Finished(Err(failure_of(stage, cause))),
        PlayEvent::Answered(Ok(metaint)) => PlayStage::Probe { metaint },
        PlayEvent::Answered(Err(e)) => PlayStage::Finished(Err(e)),
        PlayEvent::Probed { track } => PlayStage::BuildDecoder { track },
        PlayEvent::Cancelled(true) => PlayStage::Finished(Ok(())),
        PlayEvent::Cancelled(false) => PlayStage::Decode { started: stage->Poll_started },
        PlayEvent::Completed => match stage {
            PlayStage::BuildDecoder { .. } => PlayStage::OpenSink,
            PlayStage::OpenSink => PlayStage::Poll { started: false },
            PlayStage::Decode { started } => PlayStage::Play { allocate: !started },
            PlayStage::Play { .. } => PlayStage::Poll { started: true },
            other => other,
        },
    }
}

/// Begins an attempt. One that is cancelled already does nothing.
pub fn begin(cancelled: bool) -> (stage: PlayStage)
    ensures
        stage == first_stage(cancelled),
{
    if cancelled {
        PlayStage::Finished(Ok(()))
    } else {
        PlayStage::Connect
    }
}

/// Decides how an attempt goes on.
pub fn advance(stage: PlayStage, event: PlayEvent) -> (next: PlayStage)
    requires
        can_come_of(stage, event),
    ensures
        next == stage_after(stage, event),
{
    match (stage, event) {
        (PlayStage::Connect, PlayEvent::Failed(cause)) => PlayStage::Finished(
            Err(R357Error::ConnectError(cause)),
        ),
        (PlayStage::OpenSink, PlayEvent::Failed(cause)) => PlayStage::Finished(
            Err(R357Error::PulseError(cause)),
        ),
        (PlayStage::Play { .. }, PlayEvent::Failed(cause)) => PlayStage::Finished(
            Err(R357Error::PulseError(cause)),
        ),
        (_, PlayEvent::Failed(cause)) => PlayStage::Finished(Err(R357Error::DecodeError(cause))),
        (_, PlayEvent::Answered(Ok(metaint))) => PlayStage::Probe { metaint },
        (_, PlayEvent::Answered(Err(e))) => PlayStage::Finished(Err(e)),
        (_, PlayEvent::Probed { track }) => PlayStage::BuildDecoder { track },
        (PlayStage::BuildDecoder { .. }, PlayEvent::Completed) => PlayStage::OpenSink,
        (PlayStage::OpenSink, PlayEvent::Completed) => PlayStage::Poll { started: false },
        (PlayStage::Poll { .. }, PlayEvent::Cancelled(true)) => PlayStage::Finished(Ok(())),
        (PlayStage::Poll { started }, PlayEvent::Cancelled(false)) => PlayStage::Decode { started },
        (PlayStage::Decode { started }, PlayEvent::Completed) => PlayStage::Play {
            allocate: !started,
        },
        (PlayStage::Play { .. }, PlayEvent::Completed) => PlayStage::Poll { started: true },
        (other, _) => other,
    }
}

/// Whether a series of stages is the beginning of an attempt with these events.
pub open spec fn is_attempt(stages: Seq<PlayStage>, events: Seq<PlayEvent>, cancelled: bool) -> bool {
    &&& stages.len() == events.len() + 1
    &&& stages[0] == first_stage(cancelled)
    &&& forall|i: int|
        0 <= i < events.len() ==> can_come_of(stages[i], #[trigger] events[i]) && stages[i + 1]
            == stage_after(stages[i], events[i])
}

/// An attempt ends well only because it was cancelled: before it began, or by the
/// last thing that happened.
pub proof fn only_a_cancelled_attempt_ends_well(
    stages: Seq<PlayStage>,
    events: Seq<PlayEvent>,
    cancelled: bool,
)
    requires
        is_attempt(stages, events, cancelled),
        stages.last() == PlayStage::Finished(Ok(())),
    ensures
        if events.len() == 0 {
            cancelled
        } else {
            events.last() == PlayEvent::Cancelled(true)
        },
{
    if events.len() > 0 {
        let last = events.len() - 1;
        assert(can_come_of(stages[last], events[last]));
        assert(stages[last + 1] == stages.last());
    }
}

/// A failure ends the attempt with the error that belongs to what failed, and
/// nothing happens after it.
pub proof fn a_failure_ends_the_attempt(
    stages: Seq<PlayStage>,
    events: Seq<PlayEvent>,
    cancelled: bool,
    at: int,
)
    requires
        is_attempt(stages, events, cancelled),
        0 <= at < events.len(),
        events[at] is Failed,
    ensures
        at == events.len() - 1,
        stages.last() == PlayStage::Finished(Err(failure_of(stages[at], events[at]->Failed_0))),
{
    assert(can_come_of(stages[at], events[at]));
    if at + 1 < events.len() {
        assert(can_come_of(stages[at + 1], events[at + 1]));
    }
}

/// Whether samples were played before a position of an attempt.
pub open spec fn played_before(stages: Seq<PlayStage>, at: int) -> bool {
    exists|i: int| 0 <= i < at && #[trigger] stages[i] is Play
}

proof fn lemma_started_means_played(
    stages: Seq<PlayStage>,
    events: Seq<PlayEvent>,
    cancelled: bool,
    at: int,
)
    requires
        is_attempt(stages, events, cancelled),
        0 <= at < stages.len(),
    ensures
        match stages[at] {
            PlayStage::Poll { started } => started == played_before(stages, at),
            PlayStage::Decode { started } => started == played_before(stages, at),
            PlayStage::Play { allocate } => allocate == !played_before(stages, at),
            PlayStage::Finished(_) => true,
            _ => !played_before(stages, at),
        },
    decreases at,
{
    if at > 0 {
        lemma_started_means_played(stages, events, cancelled, at - 1);
        assert(can_come_of(stages[at - 1], events[at - 1]));
        assert(stages[at - 1 + 1] == stages[at]);
        assert(played_before(stages, at) == (played_before(stages, at - 1) || stages[at - 1] is Play));
    }
}

/// The sample buffer is made for the first samples that are played, and for no
/// others.
pub proof fn sample_buffer_is_made_once(
    stages: Seq<PlayStage>,
    events: Seq<PlayEvent>,
    cancelled: bool,
    at: int,
)
    requires
        is_attempt(stages, events, cancelled),
        0 <= at < stages.len(),
        stages[at] is Play,
    ensures
        stages[at]->Play_allocate <==> !played_before(stages, at),
{
    lemma_started_means_played(stages, events, cancelled, at);
}

/// Finds the track to play: the first that has a codec.
pub fn select_track(has_codec: &Vec<bool>) -> (track: Option<usize>)
    ensures
        match track {
            Some(found) => {
                &&& found < has_codec.len()
                &&& has_codec@[found as int]
                &&& forall|i: int| 0 <= i < found ==> !#[trigger] has_codec@[i]
            },
            None => forall|i: int| 0 <= i < has_codec.len() ==> !#[trigger] has_codec@[i],
        },
{
    let mut at: usize = 0;
    while at < has_codec.len()
        invariant
            at <= has_codec.len(),
            forall|i: int| 0 <= i < at ==> !#[trigger] has_codec@[i],
        decreases has_codec.len() - at,
    {
        if has_codec[at] {
            return Some(at);
        }
        at = at + 1;
    }
    None
}

/// A sample as an unsigned number with the same bits.
pub open spec fn sample_bits(sample: i16) -> int {
    if sample >= 0 {
        sample as int
    } else {
        sample + 65536
    }
}

/// The lower byte of a sample.
pub open spec fn low_byte(sample: i16) -> u8 {
    (sample_bits(sample) % 256) as u8
}

/// The upper byte of a sample.
pub open spec fn high_byte(sample: i16) -> u8 {
    (sample_bits(sample) / 256) as u8
}

/// Samples as bytes, the lower byte of each first.
pub open spec fn little_endian(samples: Seq<i16>) -> Seq<u8> {
    Seq::new(
        2 * samples.len(),
        |i: int|
            if i % 2 == 0 {
                low_byte(samples[i / 2])
            } else {
                high_byte(samples[i / 2])
            },
    )
}

/// Samples as bytes, the upper byte of each first.
pub open spec fn big_endian(samples: Seq<i16>) -> Seq<u8> {
    Seq::new(
        2 * samples.len(),
        |i: int|
            if i % 2 == 0 {
                high_byte(samples[i / 2])
            } else {
                low_byte(samples[i / 2])
            },
    )
}

/// `bytemuck::cast_slice` from samples to bytes: the bytes of each sample in turn, in
/// the byte order of the machine.
#[verifier::external_body]
fn cast_samples(samples: &[i16]) -> (bytes: &[u8])
    ensures
        bytes@ == little_endian(samples@) || bytes@ == big_endian(samples@),
{
    bytemuck::cast_slice(samples)
}

/// The bytes of decoded samples, as the sound server takes them: of all samples
/// either the lower byte comes first or the upper, as the machine has it.
pub fn pcm_bytes(samples: &[i16]) -> (bytes: &[u8])
    ensures
        bytes@ == little_endian(samples@) || bytes@ == big_endian(samples@),
        bytes@.len() == 2 * samples@.len(),
{
    cast_samples(samples)
}

/// The samples can be told from their bytes, in either byte order: two series with
/// the same bytes are the same.
pub proof fn samples_survive_as_bytes(samples: Seq<i16>, others: Seq<i16>)
    requires
        little_endian(samples) == little_endian(others) || big_endian(samples) == big_endian(
            others,
        ),
    ensures
        samples == others,
{
    assert(little_endian(samples).len() == 2 * samples.len());
    assert(little_endian(others).len() == 2 * others.len());
    assert(big_endian(samples).len() == 2 * samples.len());
    assert(big_endian(others).len() == 2 * others.len());
    assert forall|i: int| 0 <= i < samples.len() implies samples[i] == others[i] by {
        if little_endian(samples) == little_endian(others) {
            assert(little_endian(samples)[2 * i] == little_endian(others)[2 * i]);
            assert(little_endian(samples)[2 * i + 1] == little_endian(others)[2 * i + 1]);
        } else {
            assert(big_endian(samples)[2 * i] == big_endian(others)[2 * i]);
            assert(big_endian(samples)[2 * i + 1] == big_endian(others)[2 * i + 1]);
        }
    }
    assert(samples =~= others);
}

proof fn lemma_places(stages: Seq<PlayStage>, events: Seq<PlayEvent>, cancelled: bool, at: int)
    requires
        is_attempt(stages, events, cancelled),
        0 <= at < stages.len(),
    ensures
        match stages[at] {
            PlayStage::Connect => at == 0,
            PlayStage::Probe { metaint } => at == 1 && events[0] == PlayEvent::Answered(
                Ok(metaint),
            ),
            PlayStage::BuildDecoder { track } => at == 2 && events[1] == (PlayEvent::Probed { track }),
            PlayStage::OpenSink => at == 3,
            PlayStage::Poll { .. } => at >= 4 && (at - 4) % 3 == 0,
            PlayStage::Decode { .. } => at >= 5 && (at - 4) % 3 == 1,
            PlayStage::Play { .. } => at >= 6 && (at - 4) % 3 == 2,
            PlayStage::Finished(_) => at == stages.len() - 1,
        },
    decreases at,
{
    if at < events.len() {
        assert(can_come_of(stages[at], events[at]));
    }
    if at > 0 {
        lemma_places(stages, events, cancelled, at - 1);
        assert(can_come_of(stages[at - 1], events[at - 1]));
        assert(stages[at - 1 + 1] == stages[at]);
    }
}

/// An attempt that is not cancelled already goes through its stages in their order:
/// connect, probe with the interval of the answer, build the decoder of the track that
/// was found, open the sound server, and then in turn look for a cancellation, decode
/// and play. Only the last stage can be the end.
pub proof fn every_stage_has_its_place(
    stages: Seq<PlayStage>,
    events: Seq<PlayEvent>,
    cancelled: bool,
    at: int,
)
    requires
        is_attempt(stages, events, cancelled),
        0 <= at < stages.len(),
        !(stages[at] is Finished),
    ensures
        !cancelled,
        at == 0 ==> stages[at] is Connect,
        at == 1 ==> stages[at] is Probe && events[0] == PlayEvent::Answered(
            Ok(stages[at]->Probe_metaint),
        ),
        at == 2 ==> stages[at] is BuildDecoder && events[1] == (PlayEvent::Probed {
            track: stages[at]->BuildDecoder_track,
        }),
        at == 3 ==> stages[at] is OpenSink,
        at >= 4 && (at - 4) % 3 == 0 ==> stages[at] is Poll,
        at >= 4 && (at - 4) % 3 == 1 ==> stages[at] is Decode,
        at >= 4 && (at - 4) % 3 == 2 ==> stages[at] is Play,
{
    lemma_places(stages, events, cancelled, at);
    lemma_places(stages, events, cancelled, 0);
    if at > 0 {
        assert(can_come_of(stages[0], events[0]));
    }
}

/// An attempt goes on unless something failed, the answer was refused or the attempt
/// was cancelled. Then it ends: with the error of what failed and the reason for it,
/// with the refusal as it is, or well.
pub proof fn an_attempt_goes_on_until_it_has_reason_to_end(
    stages: Seq<PlayStage>,
    events: Seq<PlayEvent>,
    cancelled: bool,
    at: int,
)
    requires
        is_attempt(stages, events, cancelled),
        0 <= at < events.len(),
    ensures
        stages[at + 1] is Finished <==> {
            ||| events[at] is Failed
            ||| events[at] is Answered && events[at]->Answered_0 is Err
            ||| events[at] == PlayEvent::Cancelled(true)
        },
        events[at] matches PlayEvent::Failed(cause) ==> stages[at + 1] == PlayStage::Finished(
            Err(
                if at == 0 {
                    R357Error::ConnectError(cause)
                } else if at == 3 || (at >= 4 && (at - 4) % 3 == 2) {
                    R357Error::PulseError(cause)
                } else {
                    R357Error::DecodeError(cause)
                },
            ),
        ),
        events[at] matches PlayEvent::Answered(Err(refusal)) ==> stages[at + 1]
            == PlayStage::Finished(Err(refusal)),
        events[at] matches PlayEvent::Answered(Ok(metaint)) ==> stages[at + 1] == (
        PlayStage::Probe { metaint }),
        events[at] == PlayEvent::Cancelled(true) ==> stages[at + 1] == PlayStage::Finished(Ok(())),
{
    lemma_places(stages, events, cancelled, at);
    assert(can_come_of(stages[at], events[at]));
}

/// An attempt that is cancelled before it begins is over, and has not failed; any other
/// begins with the connection.
pub proof fn an_attempt_begins_unless_cancelled()
    ensures
        first_stage(true) == PlayStage::Finished(Ok(())),
        first_stage(false) is Connect,
{
}

/// An attempt ends with an error only if something failed or the answer was refused, and
/// the error is of this.
pub proof fn an_error_has_its_cause(
    stages: Seq<PlayStage>,
    events: Seq<PlayEvent>,
    cancelled: bool,
    error: R357Error,
)
    requires
        is_attempt(stages, events, cancelled),
        stages.last() == PlayStage::Finished(Err(error)),
    ensures
        events.len() > 0,
        events.last() == PlayEvent::Answered(Err(error)) || (events.last() is Failed && {
            let cause = events.last()->Failed_0;
            ||| error == R357Error::ConnectError(cause)
            ||| error == R357Error::PulseError(cause)
            ||| error == R357Error::DecodeError(cause)
        }),
{
    if events.len() > 0 {
        let last = events.len() - 1;
        assert(stages[last + 1] == stages.last());
        an_attempt_goes_on_until_it_has_reason_to_end(stages, events, cancelled, last);
    }
}

/// Whatever can come of a stage is provided for: every stage but the look for a
/// cancellation can fail, and each can be done in its own way.
pub proof fn every_outcome_is_provided_for(
    cause: String,
    answer: Result<Option<usize>, R357Error>,
    metaint: Option<usize>,
    track: usize,
    flag: bool,
)
    ensures
        can_come_of(PlayStage::Connect, PlayEvent::Failed(cause)),
        can_come_of(PlayStage::Connect, PlayEvent::Answered(answer)),
        can_come_of(PlayStage::Probe { metaint }, PlayEvent::Failed(cause)),
        can_come_of(PlayStage::Probe { metaint }, PlayEvent::Probed { track }),
        can_come_of(PlayStage::BuildDecoder { track }, PlayEvent::Failed(cause)),
        can_come_of(PlayStage::BuildDecoder { track }, PlayEvent::Completed),
        can_come_of(PlayStage::OpenSink, PlayEvent::Failed(cause)),
        can_come_of(PlayStage::OpenSink, PlayEvent::Completed),
        can_come_of(PlayStage::Poll { started: flag }, PlayEvent::Cancelled(true)),
        can_come_of(PlayStage::Poll { started: flag }, PlayEvent::Cancelled(false)),
        can_come_of(PlayStage::Decode { started: flag }, PlayEvent::Failed(cause)),
        can_come_of(PlayStage::Decode { started: flag }, PlayEvent::Completed),
        can_come_of(PlayStage::Play { allocate: flag }, PlayEvent::Failed(cause)),
        can_come_of(PlayStage::Play { allocate: flag }, PlayEvent::Completed),
{
}

/// The two bytes of each sample make up the sample again, modulo two to the sixteen: in
/// one order the second counts 256 times, in the other the first.
pub proof fn bytes_make_up_the_samples(samples: Seq<i16>, i: int)
    requires
        0 <= i < samples.len(),
    ensures
        ({
            let number = if samples[i] < 0 {
                samples[i] + 65536
            } else {
                samples[i] as int
            };
            &&& little_endian(samples).len() == 2 * samples.len()
            &&& big_endian(samples).len() == 2 * samples.len()
            &&& little_endian(samples)[2 * i] + 256 * little_endian(samples)[2 * i + 1] == number
            &&& 256 * big_endian(samples)[2 * i] + big_endian(samples)[2 * i + 1] == number
        }),
{
    assert((2 * i) / 2 == i);
    assert((2 * i + 1) / 2 == i);
}

} // verus!
