//! What a source of audio promises of the stream behind it.
//!
//! The stream is modelled as the bytes that were read from it, and a read as the
//! chunks that its actions brought. The laws at the end say that a reader gets the
//! audio of the stream, all of it and nothing else.

use vstd::prelude::*;

use crate::icy::{IcyState, ReadAction, ReadEvent};

verus! {

/// A stream taken apart.
pub struct Demuxed {
    /// The audio, without the metadata between it.
    pub audio: Seq<u8>,
    /// The metadata blocks that are not empty, in order.
    pub blocks: Seq<Seq<u8>>,
    /// How much audio stands before the next metadata when the stream breaks off.
    pub remaining: nat,
}

impl Demuxed {
    /// The same with audio and blocks that came before.
    pub open spec fn behind(self, audio: Seq<u8>, blocks: Seq<Seq<u8>>) -> Demuxed {
        Demuxed { audio: audio + self.audio, blocks: blocks + self.blocks, remaining: self.remaining }
    }
}

/// Takes a stream apart that has `remaining` bytes of audio before its first
/// metadata and `metaint` bytes between one metadata block and the next. A block
/// that is not complete is left out.
pub open spec fn demux(metaint: nat, remaining: nat, stream: Seq<u8>) -> Demuxed
    decreases stream.len(),
{
    if stream.len() == 0 {
        Demuxed { audio: Seq::empty(), blocks: Seq::empty(), remaining }
    } else if remaining > 0 {
        demux(metaint, (remaining - 1) as nat, stream.skip(1)).behind(
            seq![stream[0]],
            Seq::empty(),
        )
    } else {
        let end = 1 + 16 * stream[0];
        if end > stream.len() {
            Demuxed { audio: Seq::empty(), blocks: Seq::empty(), remaining }
        } else {
            demux(metaint, metaint, stream.skip(end)).behind(
                Seq::empty(),
                if stream[0] == 0 {
                    Seq::empty()
                } else {
                    seq![stream.subrange(1, end)]
                },
            )
        }
    }
}

/// What one action of a read brought from the stream.
pub enum Chunk {
    Audio(Seq<u8>),
    Length(u8),
    Block(Seq<u8>),
}

impl Chunk {
    /// The bytes that were taken from the stream.
    pub open spec fn bytes(self) -> Seq<u8> {
        match self {
            Chunk::Audio(bytes) => bytes,
            Chunk::Length(units) => seq![units],
            Chunk::Block(bytes) => bytes,
        }
    }

    /// The bytes that went into the reader's buffer.
    pub open spec fn audio(self) -> Seq<u8> {
        match self {
            Chunk::Audio(bytes) => bytes,
            _ => Seq::empty(),
        }
    }

    /// The metadata block that was read.
    pub open spec fn blocks(self) -> Seq<Seq<u8>> {
        match self {
            Chunk::Block(bytes) => seq![bytes],
            _ => Seq::empty(),
        }
    }

    /// How the source learns of the chunk.
    pub open spec fn event(self) -> ReadEvent {
        match self {
            Chunk::Audio(bytes) => ReadEvent::Audio(bytes.len() as usize),
            Chunk::Length(units) => ReadEvent::MetaLength(units),
            Chunk::Block(_) => ReadEvent::MetaBlock,
        }
    }

    /// Whether the pending action of a source can bring the chunk.
    pub open spec fn fits(self, state: IcyState) -> bool {
        match (state.pending, self) {
            (ReadAction::Audio { len, .. }, Chunk::Audio(bytes)) => bytes.len() <= len,
            (ReadAction::MetaLength, Chunk::Length(_)) => true,
            (ReadAction::MetaBlock { len }, Chunk::Block(bytes)) => bytes.len() == len,
            _ => false,
        }
    }
}

/// All bytes that a series of chunks took from the stream.
pub open spec fn bytes_of(chunks: Seq<Chunk>) -> Seq<u8>
    decreases chunks.len(),
{
    if chunks.len() == 0 {
        Seq::empty()
    } else {
        chunks[0].bytes() + bytes_of(chunks.skip(1))
    }
}

/// All bytes of a series of chunks that went into the reader's buffers.
pub open spec fn audio_of(chunks: Seq<Chunk>) -> Seq<u8>
    decreases chunks.len(),
{
    if chunks.len() == 0 {
        Seq::empty()
    } else {
        chunks[0].audio() + audio_of(chunks.skip(1))
    }
}

/// All metadata blocks of a series of chunks.
pub open spec fn blocks_of(chunks: Seq<Chunk>) -> Seq<Seq<u8>>
    decreases chunks.len(),
{
    if chunks.len() == 0 {
        Seq::empty()
    } else {
        chunks[0].blocks() + blocks_of(chunks.skip(1))
    }
}

/// The state of a source after a series of chunks.
pub open spec fn run(state: IcyState, chunks: Seq<Chunk>) -> IcyState
    decreases chunks.len(),
{
    if chunks.len() == 0 {
        state
    } else {
        run(state.after(chunks[0].event()), chunks.skip(1))
    }
}

/// Whether the actions of a source can bring a series of chunks.
pub open spec fn can_run(state: IcyState, chunks: Seq<Chunk>) -> bool
    decreases chunks.len(),
{
    chunks.len() > 0 ==> {
        &&& chunks[0].fits(state)
        &&& can_run(state.after(chunks[0].event()), chunks.skip(1))
    }
}

/// A chunk that fits is one that the source accepts, and leaves it well formed.
proof fn lemma_step(state: IcyState, chunk: Chunk)
    requires
        state.wf(),
        chunk.fits(state),
    ensures
        state.accepts(chunk.event()),
        state.after(chunk.event()).wf(),
        state.after(chunk.event()).metaint == state.metaint,
        state.after(chunk.event()).want == state.want,
        state.after(chunk.event()).total == state.total + chunk.audio().len(),
{
}

/// Audio that stands before the next metadata comes out as it is.
proof fn lemma_demux_audio(metaint: nat, remaining: nat, audio: Seq<u8>, tail: Seq<u8>)
    requires
        audio.len() <= remaining,
    ensures
        demux(metaint, remaining, audio + tail) == demux(
            metaint,
            (remaining - audio.len()) as nat,
            tail,
        ).behind(audio, Seq::empty()),
    decreases audio.len(),
{
    let rest = demux(metaint, (remaining - audio.len()) as nat, tail);
    if audio.len() == 0 {
        assert(audio + tail =~= tail);
        assert(audio + rest.audio =~= rest.audio);
        assert(Seq::<Seq<u8>>::empty() + rest.blocks =~= rest.blocks);
    } else {
        lemma_demux_audio(metaint, (remaining - 1) as nat, audio.skip(1), tail);
        assert((audio + tail).skip(1) =~= audio.skip(1) + tail);
        assert(seq![audio[0]] + (audio.skip(1) + rest.audio) =~= audio + rest.audio);
        assert(Seq::<Seq<u8>>::empty() + (Seq::<Seq<u8>>::empty() + rest.blocks) =~= Seq::<
            Seq<u8>,
        >::empty() + rest.blocks);
    }
}

/// A complete metadata block is taken out.
proof fn lemma_demux_block(metaint: nat, units: u8, block: Seq<u8>, tail: Seq<u8>)
    requires
        block.len() == 16 * units,
    ensures
        demux(metaint, 0, seq![units] + block + tail) == demux(metaint, metaint, tail).behind(
            Seq::empty(),
            if units == 0 {
                Seq::empty()
            } else {
                seq![block]
            },
        ),
{
    let stream = seq![units] + block + tail;
    let end = 1 + 16 * units;
    assert(stream.skip(end) =~= tail);
    assert(stream.subrange(1, end) =~= block);
}

proof fn lemma_behind_twice(
    d: Demuxed,
    audio1: Seq<u8>,
    blocks1: Seq<Seq<u8>>,
    audio2: Seq<u8>,
    blocks2: Seq<Seq<u8>>,
)
    ensures
        d.behind(audio2, blocks2).behind(audio1, blocks1) == d.behind(
            audio1 + audio2,
            blocks1 + blocks2,
        ),
{
    assert(audio1 + (audio2 + d.audio) =~= audio1 + audio2 + d.audio);
    assert(blocks1 + (blocks2 + d.blocks) =~= blocks1 + blocks2 + d.blocks);
}

/// What a series of chunks takes from the front of a stream is what taking the
/// stream apart gives first, and the source is left where the rest begins.
proof fn lemma_run_demuxes(state: IcyState, chunks: Seq<Chunk>, tail: Seq<u8>)
    requires
        state.wf(),
        state.metaint is Some,
        !(state.pending is MetaBlock),
        can_run(state, chunks),
        !(run(state, chunks).pending is MetaBlock),
    ensures
        demux(state.metaint->0 as nat, state.remaining as nat, bytes_of(chunks) + tail) == demux(
            state.metaint->0 as nat,
            run(state, chunks).remaining as nat,
            tail,
        ).behind(audio_of(chunks), blocks_of(chunks)),
        run(state, chunks).wf(),
        run(state, chunks).metaint == state.metaint,
        run(state, chunks).want == state.want,
        run(state, chunks).total == state.total + audio_of(chunks).len(),
    decreases chunks.len(),
{
    let metaint = state.metaint->0 as nat;
    let last = run(state, chunks);
    let rest = demux(metaint, last.remaining as nat, tail);
    if chunks.len() == 0 {
        assert(bytes_of(chunks) + tail =~= tail);
        assert(audio_of(chunks) + rest.audio =~= rest.audio);
        assert(blocks_of(chunks) + rest.blocks =~= rest.blocks);
    } else {
        let chunk = chunks[0];
        let next = state.after(chunk.event());
        lemma_step(state, chunk);
        match chunk {
            Chunk::Audio(bytes) => {
                lemma_run_demuxes(next, chunks.skip(1), tail);
                let then = bytes_of(chunks.skip(1)) + tail;
                lemma_demux_audio(metaint, state.remaining as nat, bytes, then);
                assert(bytes_of(chunks) + tail =~= bytes + then);
                lemma_behind_twice(
                    rest,
                    bytes,
                    Seq::empty(),
                    audio_of(chunks.skip(1)),
                    blocks_of(chunks.skip(1)),
                );
            },
            Chunk::Length(units) => {
                if units == 0 {
                    lemma_run_demuxes(next, chunks.skip(1), tail);
                    let then = bytes_of(chunks.skip(1)) + tail;
                    lemma_demux_block(metaint, units, Seq::empty(), then);
                    assert(bytes_of(chunks) + tail =~= seq![units] + Seq::<u8>::empty() + then);
                    lemma_behind_twice(
                        rest,
                        Seq::empty(),
                        Seq::empty(),
                        audio_of(chunks.skip(1)),
                        blocks_of(chunks.skip(1)),
                    );
                } else {
                    let later = chunks.skip(1);
                    assert(can_run(next, later));
                    assert(run(next, later) == last);
                    assert(later.len() > 0);
                    let block = later[0]->Block_0;
                    lemma_step(next, later[0]);
                    let behind = next.after(later[0].event());
                    assert(can_run(behind, later.skip(1)));
                    assert(run(behind, later.skip(1)) == last);
                    lemma_run_demuxes(behind, later.skip(1), tail);
                    let then = bytes_of(later.skip(1)) + tail;
                    lemma_demux_block(metaint, units, block, then);
                    assert(bytes_of(chunks) + tail =~= seq![units] + block + then);
                    lemma_behind_twice(
                        rest,
                        Seq::empty(),
                        seq![block],
                        audio_of(later.skip(1)),
                        blocks_of(later.skip(1)),
                    );
                    assert(audio_of(chunks) =~= audio_of(later));
                    assert(audio_of(later) =~= audio_of(later.skip(1)));
                    assert(blocks_of(chunks) =~= blocks_of(later));
                    assert(blocks_of(later) =~= seq![block] + blocks_of(later.skip(1)));
                }
            },
            Chunk::Block(_) => {},
        }
    }
}

/// One read gives the reader the audio of the part of the stream that it took, all
/// of it and nothing else, hands over the metadata blocks of that part, and leaves
/// the source where the rest of the stream begins.
pub proof fn read_gives_the_audio(start: IcyState, want: usize, chunks: Seq<Chunk>)
    requires
        start.wf(),
        start.metaint is Some,
        can_run(start.begin(want), chunks),
        run(start.begin(want), chunks).pending is Done,
    ensures
        ({
            let metaint = start.metaint->0 as nat;
            let end = run(start.begin(want), chunks);
            let taken = demux(metaint, start.remaining as nat, bytes_of(chunks));
            &&& audio_of(chunks) == taken.audio
            &&& blocks_of(chunks) == taken.blocks
            &&& end.remaining == taken.remaining
            &&& end.pending == (ReadAction::Done { total: audio_of(chunks).len() as usize })
            &&& audio_of(chunks).len() <= want
        }),
{
    lemma_run_demuxes(start.begin(want), chunks, Seq::empty());
    assert(bytes_of(chunks) + Seq::<u8>::empty() =~= bytes_of(chunks));
    assert(audio_of(chunks) + Seq::<u8>::empty() =~= audio_of(chunks));
    assert(blocks_of(chunks) + Seq::<Seq<u8>>::empty() =~= blocks_of(chunks));
}

/// Without an interval one read is one read of the stream, and what it took is
/// what the reader gets.
pub proof fn read_without_metaint_gives_the_stream(
    start: IcyState,
    want: usize,
    chunks: Seq<Chunk>,
)
    requires
        start.wf(),
        start.metaint is None,
        can_run(start.begin(want), chunks),
        run(start.begin(want), chunks).pending is Done,
    ensures
        chunks.len() == 1,
        audio_of(chunks) == bytes_of(chunks),
        run(start.begin(want), chunks).pending == (ReadAction::Done {
            total: bytes_of(chunks).len() as usize,
        }),
{
    let first = start.begin(want);
    assert(chunks.len() > 0);
    let second = first.after(chunks[0].event());
    assert(second.pending is Done);
    assert(can_run(second, chunks.skip(1)));
    if chunks.len() > 1 {
        assert(chunks.skip(1)[0].fits(second));
    }
    assert(chunks.skip(1) =~= Seq::empty());
    assert(run(second, chunks.skip(1)) == second);
    assert(audio_of(chunks.skip(1)) =~= Seq::empty());
    assert(bytes_of(chunks.skip(1)) =~= Seq::empty());
    assert(audio_of(chunks) =~= bytes_of(chunks));
    assert(bytes_of(chunks) =~= chunks[0].bytes());
}

/// Whether the last thing that a series of chunks brought was that no audio is left.
pub open spec fn ended(chunks: Seq<Chunk>) -> bool {
    chunks.len() > 0 && chunks.last() is Audio && chunks.last().bytes().len() == 0
}

/// A read gives all that the reader wants unless the stream has ended: the last
/// thing that a shorter read did was to find no more audio.
pub proof fn read_is_short_only_at_the_end(start: IcyState, want: usize, chunks: Seq<Chunk>)
    requires
        start.wf(),
        start.metaint is Some,
        can_run(start.begin(want), chunks),
        run(start.begin(want), chunks).pending is Done,
    ensures
        audio_of(chunks).len() == want || ended(chunks),
{
    lemma_run_demuxes(start.begin(want), chunks, Seq::empty());
    lemma_short_run(start.begin(want), chunks);
}

proof fn lemma_short_run(state: IcyState, chunks: Seq<Chunk>)
    requires
        state.wf(),
        state.metaint is Some,
        state.pending matches ReadAction::Done { total } ==> total == state.want,
        can_run(state, chunks),
        run(state, chunks).pending is Done,
    ensures
        run(state, chunks).total == state.want || ended(chunks),
        run(state, chunks).want == state.want,
    decreases chunks.len(),
{
    if chunks.len() > 0 {
        let next = state.after(chunks[0].event());
        lemma_step(state, chunks[0]);
        if chunks[0] is Audio && chunks[0]->Audio_0.len() == 0 {
            assert(can_run(next, chunks.skip(1)));
            if chunks.len() > 1 {
                assert(chunks.skip(1)[0].fits(next));
            }
            assert(chunks.skip(1) =~= Seq::empty());
            assert(chunks.last() == chunks[0]);
            assert(run(next, chunks.skip(1)) == next);
        } else {
            lemma_short_run(next, chunks.skip(1));
            if chunks.len() > 1 {
                assert(chunks.skip(1).last() == chunks.last());
            } else {
                assert(run(next, chunks.skip(1)) == next);
            }
        }
    }
}

/// A read: how much the reader wanted, and the chunks that it took.
pub struct ReadTrace {
    pub want: usize,
    pub chunks: Seq<Chunk>,
}

/// Whether a series of reads can be performed one after the other, each to its end or
/// until it is given up, though not within a metadata block.
pub open spec fn can_read(state: IcyState, reads: Seq<ReadTrace>) -> bool
    decreases reads.len(),
{
    reads.len() > 0 ==> {
        let begun = state.begin(reads[0].want);
        &&& can_run(begun, reads[0].chunks)
        &&& !(run(begun, reads[0].chunks).pending is MetaBlock)
        &&& can_read(run(begun, reads[0].chunks), reads.skip(1))
    }
}

/// The chunks of a series of reads, in the order in which they were taken.
pub open spec fn all_chunks(reads: Seq<ReadTrace>) -> Seq<Chunk>
    decreases reads.len(),
{
    if reads.len() == 0 {
        Seq::empty()
    } else {
        reads[0].chunks + all_chunks(reads.skip(1))
    }
}

proof fn lemma_chunks_concat(a: Seq<Chunk>, b: Seq<Chunk>)
    ensures
        bytes_of(a + b) == bytes_of(a) + bytes_of(b),
        audio_of(a + b) == audio_of(a) + audio_of(b),
        blocks_of(a + b) == blocks_of(a) + blocks_of(b),
    decreases a.len(),
{
    if a.len() == 0 {
        assert(a + b =~= b);
        assert(bytes_of(a) + bytes_of(b) =~= bytes_of(b));
        assert(audio_of(a) + audio_of(b) =~= audio_of(b));
        assert(blocks_of(a) + blocks_of(b) =~= blocks_of(b));
    } else {
        lemma_chunks_concat(a.skip(1), b);
        assert((a + b).skip(1) =~= a.skip(1) + b);
        assert(bytes_of(a + b) =~= bytes_of(a) + bytes_of(b));
        assert(audio_of(a + b) =~= audio_of(a) + audio_of(b));
        assert(blocks_of(a + b) =~= blocks_of(a) + blocks_of(b));
    }
}

/// However a stream is read, in however many reads of whatever size, what goes into
/// the reader's buffers is the audio of the stream in its order, and the metadata
/// blocks are those of the stream. A read that is given up outside a metadata block
/// has filled its buffer as far as it came, and does not put the source out of step.
pub proof fn reads_give_the_audio(start: IcyState, reads: Seq<ReadTrace>)
    requires
        start.wf(),
        start.metaint is Some,
        can_read(start, reads),
    ensures
        ({
            let chunks = all_chunks(reads);
            let stream = demux(start.metaint->0 as nat, start.remaining as nat, bytes_of(chunks));
            &&& audio_of(chunks) == stream.audio
            &&& blocks_of(chunks) == stream.blocks
        }),
    decreases reads.len(),
{
    let metaint = start.metaint->0 as nat;
    if reads.len() > 0 {
        let chunks = reads[0].chunks;
        let begun = start.begin(reads[0].want);
        let end = run(begun, chunks);
        let later = all_chunks(reads.skip(1));
        lemma_run_demuxes(begun, chunks, bytes_of(later));
        reads_give_the_audio(end, reads.skip(1));
        lemma_chunks_concat(chunks, later);
    }
}

/// An interval of audio and the metadata block behind it.
pub struct Segment {
    pub audio: Seq<u8>,
    pub block: Seq<u8>,
}

/// Whether a station can send a segment: a whole interval of audio, and a block
/// whose length the length byte can give.
pub open spec fn can_send(metaint: nat, segment: Segment) -> bool {
    &&& segment.audio.len() == metaint
    &&& segment.block.len() % 16 == 0
    &&& segment.block.len() <= 16 * 255
}

/// The stream that a station sends.
pub open spec fn sent(segments: Seq<Segment>) -> Seq<u8>
    decreases segments.len(),
{
    if segments.len() == 0 {
        Seq::empty()
    } else {
        segments[0].audio + (seq![(segments[0].block.len() / 16) as u8] + segments[0].block + sent(
            segments.skip(1),
        ))
    }
}

/// The audio that a station sends.
pub open spec fn sent_audio(segments: Seq<Segment>) -> Seq<u8>
    decreases segments.len(),
{
    if segments.len() == 0 {
        Seq::empty()
    } else {
        segments[0].audio + sent_audio(segments.skip(1))
    }
}

/// The metadata blocks that a station sends, without the empty ones.
pub open spec fn sent_blocks(segments: Seq<Segment>) -> Seq<Seq<u8>>
    decreases segments.len(),
{
    if segments.len() == 0 {
        Seq::empty()
    } else if segments[0].block.len() == 0 {
        sent_blocks(segments.skip(1))
    } else {
        seq![segments[0].block] + sent_blocks(segments.skip(1))
    }
}

/// Taking apart what a station has put together gives back its audio and its
/// metadata.
pub proof fn sent_stream_comes_apart(metaint: nat, segments: Seq<Segment>)
    requires
        forall|i: int| 0 <= i < segments.len() ==> can_send(metaint, #[trigger] segments[i]),
    ensures
        demux(metaint, metaint, sent(segments)) == (Demuxed {
            audio: sent_audio(segments),
            blocks: sent_blocks(segments),
            remaining: metaint,
        }),
    decreases segments.len(),
{
    if segments.len() > 0 {
        let segment = segments[0];
        let rest = segments.skip(1);
        assert(can_send(metaint, segment));
        assert forall|i: int| 0 <= i < rest.len() implies can_send(metaint, #[trigger] rest[i]) by {
            assert(rest[i] == segments[i + 1]);
        }
        sent_stream_comes_apart(metaint, rest);
        let units = (segment.block.len() / 16) as u8;
        let tail = sent(rest);
        lemma_demux_audio(metaint, metaint, segment.audio, seq![units] + segment.block + tail);
        lemma_demux_block(metaint, units, segment.block, tail);
        let blocks = if units == 0 {
            Seq::empty()
        } else {
            seq![segment.block]
        };
        lemma_behind_twice(
            demux(metaint, metaint, tail),
            segment.audio,
            Seq::empty(),
            Seq::empty(),
            blocks,
        );
        assert(segment.audio + Seq::<u8>::empty() =~= segment.audio);
        assert(Seq::<Seq<u8>>::empty() + blocks =~= blocks);
        assert(blocks + sent_blocks(rest) =~= sent_blocks(segments));
    }
}

/// A listener who reads a stream from its beginning to its end, in whatever reads,
/// gets into the buffers the audio that the station sent, and is handed the station's
/// metadata.
pub proof fn listener_hears_what_was_sent(
    start: IcyState,
    segments: Seq<Segment>,
    reads: Seq<ReadTrace>,
)
    requires
        start.wf(),
        start.metaint == Some(start.remaining),
        forall|i: int|
            0 <= i < segments.len() ==> can_send(start.remaining as nat, #[trigger] segments[i]),
        can_read(start, reads),
        bytes_of(all_chunks(reads)) == sent(segments),
    ensures
        audio_of(all_chunks(reads)) == sent_audio(segments),
        blocks_of(all_chunks(reads)) == sent_blocks(segments),
{
    reads_give_the_audio(start, reads);
    sent_stream_comes_apart(start.remaining as nat, segments);
}

/// When there is no audio where audio was to be read, the stream has ended, and so has
/// the read, with what it got before.
pub proof fn no_audio_ends_the_read(state: IcyState)
    requires
        state.wf(),
        state.pending is Audio,
    ensures
        state.accepts(ReadEvent::Audio(0)),
        state.after(ReadEvent::Audio(0)).pending == (ReadAction::Done { total: state.total }),
        state.after(ReadEvent::Audio(0)).remaining == state.remaining,
        state.after(ReadEvent::Audio(0)).metaint == state.metaint,
{
}

/// Whatever the pending action can bring, the source accepts, and goes on well formed.
pub proof fn every_chunk_is_accepted(state: IcyState, chunk: Chunk)
    requires
        state.wf(),
        chunk.fits(state),
    ensures
        state.accepts(chunk.event()),
        state.after(chunk.event()).wf(),
{
    lemma_step(state, chunk);
}

proof fn lemma_run_is_bounded(state: IcyState, chunks: Seq<Chunk>)
    requires
        state.wf(),
        state.metaint is Some,
        can_run(state, chunks),
    ensures
        chunks.len() <= (match state.pending {
            ReadAction::Done { .. } => 0,
            ReadAction::Audio { .. } => 3 * (state.want - state.total) - 2,
            ReadAction::MetaBlock { .. } => 3 * (state.want - state.total) - 1,
            ReadAction::MetaLength => 3 * (state.want - state.total),
        }),
    decreases chunks.len(),
{
    if chunks.len() > 0 {
        lemma_step(state, chunks[0]);
        lemma_run_is_bounded(state.after(chunks[0].event()), chunks.skip(1));
    }
}

/// Every read comes to its end: it takes no more than three chunks for each byte that
/// is wanted, and a single one if the stream is all audio.
pub proof fn every_read_ends(start: IcyState, want: usize, chunks: Seq<Chunk>)
    requires
        start.wf(),
        can_run(start.begin(want), chunks),
    ensures
        chunks.len() <= (if start.metaint is Some {
            3 * want
        } else {
            1
        }),
{
    if start.metaint is Some {
        lemma_run_is_bounded(start.begin(want), chunks);
    } else {
        plain_stream_is_read_at_once(start, want, chunks);
    }
}

/// Without an interval a read asks for all that is wanted, and is over with whatever
/// comes.
pub proof fn plain_stream_is_read_at_once(start: IcyState, want: usize, chunks: Seq<Chunk>)
    requires
        start.wf(),
        start.metaint is None,
        can_run(start.begin(want), chunks),
    ensures
        chunks.len() <= 1,
        run(start.begin(want), chunks).metaint is None,
        run(start.begin(want), chunks).pending == (if chunks.len() == 0 {
            ReadAction::Audio { at: 0, len: want }
        } else {
            ReadAction::Done { total: bytes_of(chunks).len() as usize }
        }),
{
    let first = start.begin(want);
    if chunks.len() > 0 {
        let second = first.after(chunks[0].event());
        assert(can_run(second, chunks.skip(1)));
        if chunks.len() > 1 {
            assert(chunks.skip(1)[0].fits(second));
        }
        assert(chunks.skip(1) =~= Seq::empty());
        assert(run(second, chunks.skip(1)) == second);
        read_without_metaint_gives_the_stream(start, want, chunks);
    }
}

/// One chunk more is one event more.
proof fn lemma_run_further(state: IcyState, chunks: Seq<Chunk>, chunk: Chunk)
    ensures
        run(state, chunks.push(chunk)) == run(state, chunks).after(chunk.event()),
        can_run(state, chunks.push(chunk)) <==> can_run(state, chunks) && chunk.fits(
            run(state, chunks),
        ),
        audio_of(chunks.push(chunk)) == audio_of(chunks) + chunk.audio(),
    decreases chunks.len(),
{
    let more = chunks.push(chunk);
    if chunks.len() == 0 {
        assert(more.skip(1) =~= Seq::empty());
        assert(run(state.after(chunk.event()), more.skip(1)) == state.after(chunk.event()));
        assert(can_run(state.after(chunk.event()), more.skip(1)));
        assert(audio_of(more.skip(1)) =~= Seq::empty());
        assert(audio_of(more) =~= audio_of(chunks) + chunk.audio());
    } else {
        let next = state.after(chunks[0].event());
        lemma_run_further(next, chunks.skip(1), chunk);
        assert(more.skip(1) =~= chunks.skip(1).push(chunk));
        assert(audio_of(more) =~= audio_of(chunks) + chunk.audio());
    }
}

proof fn lemma_run_keeps(state: IcyState, chunks: Seq<Chunk>)
    requires
        state.wf(),
        can_run(state, chunks),
    ensures
        run(state, chunks).wf(),
        run(state, chunks).metaint == state.metaint,
        run(state, chunks).want == state.want,
        run(state, chunks).total == state.total + audio_of(chunks).len(),
    decreases chunks.len(),
{
    if chunks.len() > 0 {
        lemma_step(state, chunks[0]);
        lemma_run_keeps(state.after(chunks[0].event()), chunks.skip(1));
    }
}

/// What a read does next follows from what it has got. It is over when it has all that
/// is wanted or when no audio came. A length byte that is not zero is followed by a
/// block of sixteen times as many bytes. Metadata comes where the interval is used up.
/// Else audio is asked for, to go behind what is there: all that is wanted, or as much
/// as stands before the next metadata.
pub proof fn what_a_read_does_next(start: IcyState, want: usize, chunks: Seq<Chunk>)
    requires
        start.wf(),
        start.metaint is Some,
        can_run(start.begin(want), chunks),
    ensures
        ({
            let now = run(start.begin(want), chunks);
            let got = audio_of(chunks).len();
            let left = want - got;
            &&& now.wf() && now.metaint == start.metaint && now.want == want && now.total == got
            &&& got <= want
            &&& now.pending == (if got == want || ended(chunks) {
                ReadAction::Done { total: got as usize }
            } else if chunks.len() > 0 && chunks.last() is Length && chunks.last()->Length_0 > 0 {
                ReadAction::MetaBlock { len: (16 * chunks.last()->Length_0) as usize }
            } else if now.remaining == 0 && (chunks.len() == 0 || chunks.last() is Audio) {
                ReadAction::MetaLength
            } else if left <= now.remaining {
                ReadAction::Audio { at: got as usize, len: left as usize }
            } else {
                ReadAction::Audio { at: got as usize, len: now.remaining }
            })
        }),
{
    let begun = start.begin(want);
    lemma_run_keeps(begun, chunks);
    if chunks.len() > 0 {
        let before = chunks.drop_last();
        let chunk = chunks.last();
        assert(chunks =~= before.push(chunk));
        lemma_run_further(begun, before, chunk);
        lemma_run_keeps(begun, before);
        lemma_step(run(begun, before), chunk);
    }
}

/// How much audio stands before the next metadata is counted down by the audio that
/// comes, and begins anew with the interval behind metadata. A read that begins changes
/// nothing of it.
pub proof fn the_interval_is_counted_down(start: IcyState, want: usize, chunks: Seq<Chunk>)
    requires
        start.wf(),
        start.metaint is Some,
        can_run(start.begin(want), chunks),
    ensures
        ({
            let now = run(start.begin(want), chunks);
            if chunks.len() == 0 {
                now.remaining == start.remaining
            } else {
                let before = run(start.begin(want), chunks.drop_last());
                match chunks.last() {
                    Chunk::Audio(bytes) => now.remaining == before.remaining - bytes.len(),
                    Chunk::Length(units) => now.remaining == (if units == 0 {
                        start.metaint->0
                    } else {
                        before.remaining
                    }),
                    Chunk::Block(_) => now.remaining == start.metaint->0,
                }
            }
        }),
{
    let begun = start.begin(want);
    if chunks.len() > 0 {
        let before = chunks.drop_last();
        let chunk = chunks.last();
        assert(chunks =~= before.push(chunk));
        lemma_run_further(begun, before, chunk);
        lemma_run_keeps(begun, before);
        lemma_step(run(begun, before), chunk);
    }
}

proof fn lemma_sent_and_more(metaint: nat, segments: Seq<Segment>, tail: Seq<u8>)
    requires
        forall|i: int| 0 <= i < segments.len() ==> can_send(metaint, #[trigger] segments[i]),
    ensures
        demux(metaint, metaint, sent(segments) + tail) == demux(metaint, metaint, tail).behind(
            sent_audio(segments),
            sent_blocks(segments),
        ),
    decreases segments.len(),
{
    let last = demux(metaint, metaint, tail);
    if segments.len() == 0 {
        assert(sent(segments) + tail =~= tail);
        assert(sent_audio(segments) + last.audio =~= last.audio);
        assert(sent_blocks(segments) + last.blocks =~= last.blocks);
    } else {
        let segment = segments[0];
        let rest = segments.skip(1);
        assert(can_send(metaint, segment));
        assert forall|i: int| 0 <= i < rest.len() implies can_send(metaint, #[trigger] rest[i]) by {
            assert(rest[i] == segments[i + 1]);
        }
        lemma_sent_and_more(metaint, rest, tail);
        let units = (segment.block.len() / 16) as u8;
        let then = sent(rest) + tail;
        lemma_demux_audio(metaint, metaint, segment.audio, seq![units] + segment.block + then);
        lemma_demux_block(metaint, units, segment.block, then);
        assert(sent(segments) + tail =~= segment.audio + (seq![units] + segment.block + then));
        let blocks = if units == 0 {
            Seq::empty()
        } else {
            seq![segment.block]
        };
        lemma_behind_twice(
            demux(metaint, metaint, then),
            segment.audio,
            Seq::empty(),
            Seq::empty(),
            blocks,
        );
        assert(segment.audio + Seq::<u8>::empty() =~= segment.audio);
        assert(Seq::<Seq<u8>>::empty() + blocks =~= blocks);
        lemma_behind_twice(last, segment.audio, blocks, sent_audio(rest), sent_blocks(rest));
        assert(blocks + sent_blocks(rest) =~= sent_blocks(segments));
    }
}

/// A listener who reads a stream up to where it breaks off, within an interval of audio,
/// gets into the buffers all audio that the station sent, and is handed all metadata.
pub proof fn listener_hears_what_was_sent_so_far(
    start: IcyState,
    segments: Seq<Segment>,
    last: Seq<u8>,
    reads: Seq<ReadTrace>,
)
    requires
        start.wf(),
        start.metaint == Some(start.remaining),
        forall|i: int|
            0 <= i < segments.len() ==> can_send(start.remaining as nat, #[trigger] segments[i]),
        last.len() <= start.remaining,
        can_read(start, reads),
        bytes_of(all_chunks(reads)) == sent(segments) + last,
    ensures
        audio_of(all_chunks(reads)) == sent_audio(segments) + last,
        blocks_of(all_chunks(reads)) == sent_blocks(segments),
{
    let metaint = start.remaining as nat;
    reads_give_the_audio(start, reads);
    lemma_sent_and_more(metaint, segments, last);
    lemma_demux_audio(metaint, metaint, last, Seq::empty());
    assert(last + Seq::<u8>::empty() =~= last);
    let rest = demux(metaint, metaint, last);
    assert(rest.audio =~= last);
    assert(rest.blocks =~= Seq::empty());
    assert(sent_blocks(segments) + rest.blocks =~= sent_blocks(segments));
}

} // verus!
