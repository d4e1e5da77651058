//! Reading a radio stream that carries metadata between its audio.
//!
//! A station that was asked for metadata sends a fixed number of audio bytes, the
//! metaint interval, then one byte that gives the length of a metadata block in
//! units of sixteen bytes, then the block, and so on. [`IcySource`] decides what
//! is to be read from the connection next, so that a reader of audio sees nothing
//! of the metadata. It performs no input itself: each decision is a
//! [`ReadAction`], and each [`ReadEvent`] reports how the action went.

use vstd::prelude::*;

verus! {

/// What is to be done next for a read of audio.
#[derive(Debug, Clone, Copy, PartialEq, Eq)]
pub enum ReadAction {
    /// Read up to `len` bytes of audio to position `at` of the reader's buffer.
    Audio { at: usize, len: usize },
    /// Read the one byte that gives the length of a metadata block.
    MetaLength,
    /// Read a metadata block of exactly `len` bytes.
    MetaBlock { len: usize },
    /// The read is over, with `total` bytes of audio in the buffer.
    Done { total: usize },
}

/// How an action went. There is no event for a failed action: the read is then
/// given up, and the next one starts from what was read before.
#[derive(Debug, Clone, Copy, PartialEq, Eq)]
pub enum ReadEvent {
    /// So many bytes of audio were read; none, if the stream has ended.
    Audio(usize),
    /// The length byte was read.
    MetaLength(u8),
    /// The whole metadata block was read.
    MetaBlock,
}

/// The state of a source: its interval, how much audio stands before the next
/// metadata, how much the reader wants and has got, and what is to be done next.
pub struct IcyState {
    pub metaint: Option<usize>,
    pub remaining: usize,
    pub want: usize,
    pub total: usize,
    pub pending: ReadAction,
}

/// The smaller of two counts.
pub open spec fn smaller(a: int, b: int) -> int {
    if a <= b {
        a
    } else {
        b
    }
}

/// The read of audio that is due to a reader who wants `want` bytes and has `total`
/// of them, when `remaining` bytes stand before the next metadata.
pub open spec fn audio_due(remaining: usize, want: usize, total: usize) -> ReadAction {
    ReadAction::Audio { at: total, len: smaller(want - total, remaining as int) as usize }
}

/// What is due between audio bytes: the read is over once the reader has all that
/// is wanted, and metadata comes once the interval is used up.
pub open spec fn action_due(remaining: usize, want: usize, total: usize) -> ReadAction {
    if total >= want {
        ReadAction::Done { total }
    } else if remaining == 0 {
        ReadAction::MetaLength
    } else {
        audio_due(remaining, want, total)
    }
}

impl IcyState {
    /// What every state of a source keeps to.
    pub open spec fn wf(self) -> bool {
        match self.metaint {
            None => {
                &&& self.remaining == 0
                &&& match self.pending {
                    ReadAction::Audio { at, len } => at == 0 && len == self.want && self.total == 0,
                    ReadAction::Done { total } => total == self.total && total <= self.want,
                    _ => false,
                }
            },
            Some(metaint) => {
                &&& self.remaining <= metaint
                &&& self.total <= self.want
                &&& match self.pending {
                    ReadAction::Audio { at, len } => {
                        &&& at == self.total
                        &&& len == smaller(self.want - self.total, self.remaining as int)
                        &&& self.total < self.want
                        &&& self.remaining == 0 ==> metaint == 0
                    },
                    ReadAction::MetaLength => self.remaining == 0 && self.total < self.want,
                    ReadAction::MetaBlock { len } => {
                        &&& self.remaining == 0
                        &&& self.total < self.want
                        &&& 0 < len <= 16 * 255
                        &&& len % 16 == 0
                    },
                    ReadAction::Done { total } => total == self.total,
                }
            },
        }
    }

    /// The state at the start of a read of up to `want` bytes.
    pub open spec fn begin(self, want: usize) -> IcyState {
        let pending = match self.metaint {
            None => ReadAction::Audio { at: 0, len: want },
            Some(_) => action_due(self.remaining, want, 0),
        };
        IcyState { want, total: 0, pending, ..self }
    }

    /// The state after a metadata block: a whole interval of audio follows.
    pub open spec fn past_metadata(self) -> IcyState {
        let interval = self.metaint->0;
        IcyState {
            remaining: interval,
            pending: audio_due(interval, self.want, self.total),
            ..self
        }
    }

    /// Whether an event can report on the pending action.
    pub open spec fn accepts(self, event: ReadEvent) -> bool {
        match (self.pending, event) {
            (ReadAction::Audio { len, .. }, ReadEvent::Audio(n)) => n <= len,
            (ReadAction::MetaLength, ReadEvent::MetaLength(_)) => true,
            (ReadAction::MetaBlock { .. }, ReadEvent::MetaBlock) => true,
            _ => false,
        }
    }

    /// The state after an event.
    pub open spec fn after(self, event: ReadEvent) -> IcyState {
        match event {
            ReadEvent::Audio(n) => if self.metaint is None {
                IcyState { total: n, pending: ReadAction::Done { total: n }, ..self }
            } else if n == 0 {
                IcyState { pending: ReadAction::Done { total: self.total }, ..self }
            } else {
                let remaining = (self.remaining - n) as usize;
                let total = (self.total + n) as usize;
                IcyState {
                    remaining,
                    total,
                    pending: action_due(remaining, self.want, total),
                    ..self
                }
            },
            ReadEvent::MetaLength(units) => if units == 0 {
                self.past_metadata()
            } else {
                IcyState { pending: ReadAction::MetaBlock { len: (units * 16) as usize }, ..self }
            },
            ReadEvent::MetaBlock => self.past_metadata(),
        }
    }
}

/// A source of audio in a stream that may carry metadata.
pub struct IcySource {
    metaint: Option<usize>,
    remaining_audio: usize,
    want: usize,
    total: usize,
    pending: ReadAction,
}

impl View for IcySource {
    type V = IcyState;

    closed spec fn view(&self) -> IcyState {
        IcyState {
            metaint: self.metaint,
            remaining: self.remaining_audio,
            want: self.want,
            total: self.total,
            pending: self.pending,
        }
    }
}

impl IcySource {
    #[verifier::type_invariant]
    closed spec fn well_formed(self) -> bool {
        self@.wf()
    }

    /// A source at the beginning of a stream. Without an interval the stream is all
    /// audio.
    pub fn new(metaint: Option<usize>) -> (source: IcySource)
        ensures
            source@ == (IcyState {
                metaint,
                remaining: (match metaint {
                    Some(interval) => interval,
                    None => 0,
                }),
                want: 0,
                total: 0,
                pending: ReadAction::Done { total: 0 },
            }),
            source@.wf(),
    {
        IcySource {
            metaint,
            remaining_audio: metaint.unwrap_or(0),
            want: 0,
            total: 0,
            pending: ReadAction::Done { total: 0 },
        }
    }

    /// Decides what is due between audio bytes.
    fn next_action(remaining: usize, want: usize, total: usize) -> (action: ReadAction)
        requires
            total <= want,
        ensures
            action == action_due(remaining, want, total),
    {
        if total >= want {
            ReadAction::Done { total }
        } else if remaining == 0 {
            ReadAction::MetaLength
        } else {
            Self::next_audio(remaining, want, total)
        }
    }

    /// Decides how much audio is due, be it nothing.
    fn next_audio(remaining: usize, want: usize, total: usize) -> (action: ReadAction)
        requires
            total <= want,
        ensures
            action == audio_due(remaining, want, total),
    {
        if want - total <= remaining {
            ReadAction::Audio { at: total, len: want - total }
        } else {
            ReadAction::Audio { at: total, len: remaining }
        }
    }

    /// Starts a read of up to `want` bytes of audio. A read that was given up is
    /// forgotten; the audio and metadata that it read stay read.
    pub fn read(&mut self, want: usize) -> (action: ReadAction)
        ensures
            final(self)@ == old(self)@.begin(want),
            final(self)@.wf(),
            action == final(self)@.pending,
    {
        proof {
            use_type_invariant(&*self);
        }
        let pending: ReadAction = match self.metaint {
            None => ReadAction::Audio { at: 0, len: want },
            Some(_) => Self::next_action(self.remaining_audio, want, 0),
        };
        *self = IcySource {
            metaint: self.metaint,
            remaining_audio: self.remaining_audio,
            want,
            total: 0,
            pending,
        };
        pending
    }

    /// Goes on with a read after the pending action.
    pub fn resume(&mut self, event: ReadEvent) -> (action: ReadAction)
        requires
            old(self)@.accepts(event),
        ensures
            final(self)@ == old(self)@.after(event),
            final(self)@.wf(),
            action == final(self)@.pending,
            event == ReadEvent::Audio(0) ==> action == (ReadAction::Done {
                total: old(self)@.total,
            }),
    {
        proof {
            use_type_invariant(&*self);
        }
        let metaint: Option<usize> = self.metaint;
        let want: usize = self.want;
        let mut remaining_audio: usize = self.remaining_audio;
        let mut total: usize = self.total;
        let pending: ReadAction = match (event, metaint) {
            (ReadEvent::Audio(n), None) => {
                total = n;
                ReadAction::Done { total }
            },
            (ReadEvent::Audio(n), Some(_)) => {
                if n == 0 {
                    ReadAction::Done { total }
                } else {
                    remaining_audio = remaining_audio - n;
                    total = total + n;
                    Self::next_action(remaining_audio, want, total)
                }
            },
            (ReadEvent::MetaLength(units), Some(interval)) => {
                if units == 0 {
                    remaining_audio = interval;
                    Self::next_audio(remaining_audio, want, total)
                } else {
                    ReadAction::MetaBlock { len: units as usize * 16 }
                }
            },
            (ReadEvent::MetaBlock, Some(interval)) => {
                remaining_audio = interval;
                Self::next_audio(remaining_audio, want, total)
            },
            (_, None) => self.pending,
        };
        *self = IcySource { metaint, remaining_audio, want, total, pending };
        pending
    }

    /// A live stream cannot be rewound.
    pub fn is_seekable(&self) -> (seekable: bool)
        ensures
            !seekable,
    {
        false
    }

    /// A live stream has no length.
    pub fn byte_len(&self) -> (len: Option<u64>)
        ensures
            len is None,
    {
        None
    }
}

} // verus!
