//! The player's state, and the commands that change it.

use vstd::prelude::*;

use crate::error::R357Error;
use crate::title::parse_title;

verus! {

/// What the daemon tells of itself: whether it plays, and which song.
#[derive(Debug)]
pub struct PlayerState {
    pub playing: bool,
    pub song_title: Option<String>,
}

/// The player's state as a value: whether it plays, and the title.
pub struct PlayerView {
    pub playing: bool,
    pub song_title: Option<Seq<char>>,
}

impl View for PlayerState {
    type V = PlayerView;

    open spec fn view(&self) -> PlayerView {
        PlayerView {
            playing: self.playing,
            song_title: match self.song_title {
                Some(title) => Some(title@),
                None => None,
            },
        }
    }
}

impl PlayerView {
    /// The state of a player that does not play.
    pub open spec fn stopped() -> PlayerView {
        PlayerView { playing: false, song_title: None }
    }

    /// The state of a player that plays and has not learnt a title yet.
    pub open spec fn started() -> PlayerView {
        PlayerView { playing: true, song_title: None }
    }

    /// The state after a metadata block: its title, if it has one, is the title.
    pub open spec fn with_metadata(self, block: Seq<u8>) -> PlayerView {
        match crate::title::title_of(crate::title::block_text(block)) {
            Some(title) => PlayerView { song_title: Some(title), ..self },
            None => self,
        }
    }

    /// The state after a series of metadata blocks, in their order.
    pub open spec fn with_all_metadata(self, blocks: Seq<Seq<u8>>) -> PlayerView
        decreases blocks.len(),
    {
        if blocks.len() == 0 {
            self
        } else {
            self.with_all_metadata(blocks.drop_last()).with_metadata(blocks.last())
        }
    }
}

impl PlayerState {
    /// The state of the daemon before the first command.
    pub fn new() -> (state: PlayerState)
        ensures
            state@ == PlayerView::stopped(),
            !state.playing,
            state.song_title is None,
    {
        PlayerState { playing: false, song_title: None }
    }

    /// The playback has ended.
    pub fn stop(&mut self)
        ensures
            final(self)@ == PlayerView::stopped(),
            !final(self).playing,
            final(self).song_title is None,
    {
        self.playing = false;
        self.song_title = None;
    }

    /// A playback begins.
    pub fn start(&mut self)
        ensures
            final(self)@ == PlayerView::started(),
            final(self).playing,
            final(self).song_title is None,
    {
        self.playing = true;
        self.song_title = None;
    }

    /// Takes over a title. Tells whether it is news.
    pub fn update_title(&mut self, title: String) -> (changed: bool)
        ensures
            final(self)@ == (PlayerView { song_title: Some(title@), ..old(self)@ }),
            changed == (old(self)@.song_title != Some(title@)),
            final(self).playing == old(self).playing,
            final(self).song_title is Some && final(self).song_title->0@ == title@,
    {
        let known: bool = match &self.song_title {
            Some(current) => *current == title,
            None => false,
        };
        if !known {
            self.song_title = Some(title);
        }
        !known
    }

    /// Takes over the title of a metadata block, if the block has one. Tells whether
    /// the title is news.
    pub fn apply_metadata(&mut self, block: &[u8]) -> (changed: bool)
        ensures
            final(self)@ == old(self)@.with_metadata(block@),
            changed == (final(self)@ != old(self)@),
            final(self).playing == old(self).playing,
            match crate::title::title_of(crate::title::block_text(block@)) {
                Some(title) => final(self).song_title is Some && final(self).song_title->0@ == title,
                None => final(self).song_title == old(self).song_title && !changed,
            },
    {
        match parse_title(block) {
            Some(title) => self.update_title(title),
            None => false,
        }
    }
}

/// A title that a station announces is the title that the player shows, as long as
/// the title holds neither a quote nor a semicolon.
pub proof fn announced_title_is_shown(
    state: PlayerView,
    title: Seq<char>,
    more: Seq<char>,
    padding: nat,
)
    requires
        !title.contains('\''),
        !title.contains(';'),
    ensures
        state.with_metadata(
            vstd::utf8::encode_utf8(crate::title::announcement(title, more)) + crate::title::zeros(
                padding,
            ),
        ) == (PlayerView { song_title: Some(title), ..state }),
{
    crate::title::announced_title_is_found_in_bytes(title, more, padding);
}

/// Metadata does not start or stop the player, and the same block twice in a row is
/// no news the second time.
pub proof fn repeated_metadata_is_no_news(state: PlayerView, block: Seq<u8>)
    ensures
        state.with_metadata(block).playing == state.playing,
        state.with_metadata(block).with_metadata(block) == state.with_metadata(block),
{
}

/// After any series of metadata blocks the title that is shown is that of the last
/// block that has one. Blocks without a title leave it as it is.
pub proof fn last_title_is_shown(state: PlayerView, blocks: Seq<Seq<u8>>, at: int)
    requires
        0 <= at < blocks.len(),
        crate::title::title_of(crate::title::block_text(blocks[at])) is Some,
        forall|i: int|
            at < i < blocks.len() ==> crate::title::title_of(
                crate::title::block_text(#[trigger] blocks[i]),
            ) is None,
    ensures
        state.with_all_metadata(blocks).song_title == crate::title::title_of(
            crate::title::block_text(blocks[at]),
        ),
        state.with_all_metadata(blocks).playing == state.playing,
    decreases blocks.len(),
{
    let before = blocks.drop_last();
    lemma_metadata_keeps_playing(state, before);
    if at < blocks.len() - 1 {
        assert(blocks.last() == blocks[blocks.len() - 1]);
        assert(before[at] == blocks[at]);
        last_title_is_shown(state, before, at);
    }
}

proof fn lemma_metadata_keeps_playing(state: PlayerView, blocks: Seq<Seq<u8>>)
    ensures
        state.with_all_metadata(blocks).playing == state.playing,
    decreases blocks.len(),
{
    if blocks.len() > 0 {
        lemma_metadata_keeps_playing(state, blocks.drop_last());
    }
}

/// What a user asks of the player.
#[derive(Debug, Clone, Copy, PartialEq, Eq)]
pub enum Command {
    Start,
    Stop,
}

/// What the worker has to do for a command. `T` is the handle by which a playback
/// is cancelled.
pub enum WorkerAction<T> {
    /// Begin a playback.
    Spawn,
    /// Cancel all these playbacks.
    Cancel(Vec<T>),
    /// Nothing is to be done.
    Nothing,
}

/// What the worker has to do, as a value.
pub enum WorkerDecision<T> {
    Spawn,
    Cancel(Seq<T>),
    Nothing,
}

impl<T> View for WorkerAction<T> {
    type V = WorkerDecision<T>;

    open spec fn view(&self) -> WorkerDecision<T> {
        match self {
            WorkerAction::Spawn => WorkerDecision::Spawn,
            WorkerAction::Cancel(tokens) => WorkerDecision::Cancel(tokens@),
            WorkerAction::Nothing => WorkerDecision::Nothing,
        }
    }
}

/// The worker that turns commands into playbacks. It remembers how to cancel every
/// playback that was begun since the last stop, also one that has ended by itself.
pub struct PlayerWorker<T> {
    tokens: Vec<T>,
}

impl<T> View for PlayerWorker<T> {
    type V = Seq<T>;

    closed spec fn view(&self) -> Seq<T> {
        self.tokens@
    }
}

/// What the worker remembers after a command, if `fresh` is the handle of the
/// playback that the command may begin.
pub open spec fn remembered<T>(stored: Seq<T>, command: Command, fresh: T) -> Seq<T> {
    match command {
        Command::Start => stored.push(fresh),
        Command::Stop => Seq::empty(),
    }
}

/// What the worker does for a command.
pub open spec fn decision<T>(stored: Seq<T>, command: Command) -> WorkerDecision<T> {
    match command {
        Command::Start => WorkerDecision::Spawn,
        Command::Stop => if stored.len() == 0 {
            WorkerDecision::Nothing
        } else {
            WorkerDecision::Cancel(stored)
        },
    }
}

impl<T> PlayerWorker<T> {
    /// A worker that has begun nothing yet.
    pub fn new() -> (worker: PlayerWorker<T>)
        ensures
            worker@ == Seq::<T>::empty(),
    {
        PlayerWorker { tokens: Vec::new() }
    }

    /// Decides what a command asks for. `fresh` cancels the playback that begins if
    /// one begins; otherwise it is not used.
    pub fn handle(&mut self, command: Command, fresh: T) -> (action: WorkerAction<T>)
        ensures
            final(self)@ == remembered(old(self)@, command, fresh),
            action@ == decision(old(self)@, command),
            command is Start ==> action is Spawn && final(self)@ == old(self)@.push(fresh),
            command is Stop ==> final(self)@.len() == 0 && (if old(self)@.len() == 0 {
                action is Nothing
            } else {
                action is Cancel && action->Cancel_0@ == old(self)@
            }),
    {
        match command {
            Command::Start => {
                self.tokens.push(fresh);
                WorkerAction::Spawn
            },
            Command::Stop => {
                if self.tokens.len() == 0 {
                    WorkerAction::Nothing
                } else {
                    let mut tokens: Vec<T> = Vec::new();
                    std::mem::swap(&mut tokens, &mut self.tokens);
                    WorkerAction::Cancel(tokens)
                }
            },
        }
    }
}

/// A command as the worker gets it, with the handle that it may use.
pub struct Order<T> {
    pub command: Command,
    pub fresh: T,
}

/// What a worker that has begun nothing yet remembers after a series of commands.
pub open spec fn remembered_after<T>(orders: Seq<Order<T>>) -> Seq<T>
    decreases orders.len(),
{
    if orders.len() == 0 {
        Seq::empty()
    } else {
        remembered(
            remembered_after(orders.drop_last()),
            orders.last().command,
            orders.last().fresh,
        )
    }
}

/// What the worker does for the command at a position of a series.
pub open spec fn decision_at<T>(orders: Seq<Order<T>>, at: int) -> WorkerDecision<T> {
    decision(remembered_after(orders.take(at)), orders[at].command)
}

/// The position behind the last stop before a position of a series; the beginning of
/// the series if there is none.
pub open spec fn behind_last_stop<T>(orders: Seq<Order<T>>, at: int) -> int
    decreases at,
{
    if at <= 0 || orders[at - 1].command is Stop {
        at
    } else {
        behind_last_stop(orders, at - 1)
    }
}

/// The handles of the commands from one position of a series to another.
pub open spec fn handles<T>(orders: Seq<Order<T>>, from: int, to: int) -> Seq<T> {
    orders.subrange(from, to).map_values(|order: Order<T>| order.fresh)
}

proof fn lemma_behind_last_stop<T>(orders: Seq<Order<T>>, at: int)
    requires
        0 <= at <= orders.len(),
    ensures
        0 <= behind_last_stop(orders, at) <= at,
        forall|i: int|
            behind_last_stop(orders, at) <= i < at ==> (#[trigger] orders[i]).command is Start,
        remembered_after(orders.take(at)) == handles(orders, behind_last_stop(orders, at), at),
    decreases at,
{
    let from = behind_last_stop(orders, at);
    if at > 0 {
        lemma_behind_last_stop(orders, at - 1);
        assert(orders.take(at).drop_last() =~= orders.take(at - 1));
        assert(orders.take(at).last() == orders[at - 1]);
        if orders[at - 1].command is Start {
            assert(handles(orders, from, at) =~= handles(orders, from, at - 1).push(
                orders[at - 1].fresh,
            ));
        }
    }
    if from == at {
        assert(handles(orders, from, at) =~= Seq::empty());
    }
}

/// A stop cancels every playback that was begun since the stop before it, and these
/// only. If none was begun since, it does nothing.
pub proof fn stop_cancels_every_start_since_the_last_stop<T>(orders: Seq<Order<T>>, at: int)
    requires
        0 <= at < orders.len(),
        orders[at].command is Stop,
    ensures
        ({
            let from = behind_last_stop(orders, at);
            &&& 0 <= from <= at
            &&& from > 0 ==> orders[from - 1].command is Stop
            &&& forall|i: int| from <= i < at ==> (#[trigger] orders[i]).command is Start
            &&& decision_at(orders, at) == (if from == at {
                WorkerDecision::Nothing
            } else {
                WorkerDecision::Cancel(handles(orders, from, at))
            })
        }),
{
    lemma_behind_last_stop(orders, at);
    lemma_stop_before(orders, at);
}

proof fn lemma_stop_before<T>(orders: Seq<Order<T>>, at: int)
    requires
        0 <= at <= orders.len(),
    ensures
        behind_last_stop(orders, at) > 0 ==> orders[behind_last_stop(orders, at) - 1].command is Stop,
    decreases at,
{
    if at > 0 {
        lemma_stop_before(orders, at - 1);
    }
}

/// Whether the command at a position of a series cancels the playback with the given
/// handle.
pub open spec fn cancels_at<T>(orders: Seq<Order<T>>, at: int, token: T) -> bool {
    decision_at(orders, at) matches WorkerDecision::Cancel(tokens) && tokens.contains(token)
}

/// After a stop no playback runs: every playback that was begun before it has been
/// cancelled, by this stop or by one between.
pub proof fn stop_leaves_no_playback_running<T>(orders: Seq<Order<T>>, begun: int, at: int)
    requires
        0 <= begun < at < orders.len(),
        orders[begun].command is Start,
        orders[at].command is Stop,
    ensures
        exists|stop: int|
            begun < stop <= at && #[trigger] cancels_at(orders, stop, orders[begun].fresh),
    decreases at,
{
    lemma_behind_last_stop(orders, at);
    lemma_stop_before(orders, at);
    let from = behind_last_stop(orders, at);
    if from <= begun {
        let tokens = handles(orders, from, at);
        assert(tokens[begun - from] == orders[begun].fresh);
        assert(cancels_at(orders, at, orders[begun].fresh));
    } else {
        assert(from - 1 != begun);
        stop_leaves_no_playback_running(orders, begun, from - 1);
        let stop = choose|stop: int|
            begun < stop <= from - 1 && #[trigger] cancels_at(orders, stop, orders[begun].fresh);
        assert(begun < stop <= at && cancels_at(orders, stop, orders[begun].fresh));
    }
}

/// Every start begins a playback, and only a start does.
pub proof fn start_always_begins_a_playback<T>(orders: Seq<Order<T>>, at: int)
    requires
        0 <= at < orders.len(),
    ensures
        decision_at(orders, at) is Spawn <==> orders[at].command is Start,
{
}

/// How a playback session came to its end.
pub enum SessionEnd {
    /// The user cancelled it.
    Cancelled,
    /// The playback ended by itself, retries included.
    Ended(Result<(), R357Error>),
}

/// A session begins: the player plays, and no title is known.
pub fn begin_session(state: &mut PlayerState)
    ensures
        final(state)@ == PlayerView::started(),
        final(state).playing,
        final(state).song_title is None,
{
    state.start();
}

/// A session ends: the player is stopped, whatever ended the session. A session
/// that was cancelled has not failed.
pub fn end_session(state: &mut PlayerState, end: SessionEnd) -> (outcome: Result<(), R357Error>)
    ensures
        final(state)@ == PlayerView::stopped(),
        !final(state).playing,
        final(state).song_title is None,
        outcome == (match end {
            SessionEnd::Cancelled => Ok::<(), R357Error>(()),
            SessionEnd::Ended(result) => result,
        }),
{
    state.stop();
    match end {
        SessionEnd::Cancelled => Ok(()),
        SessionEnd::Ended(result) => result,
    }
}

/// The longest time, in seconds, for which a failing playback is retried.
pub const MAX_RETRY_SECONDS: u64 = 1200;

/// A playback that begins is shown as playing and without a title, and one that has
/// ended as neither.
pub proof fn what_is_shown_follows_the_playback()
    ensures
        PlayerView::started().playing,
        PlayerView::started().song_title is None,
        !PlayerView::stopped().playing,
        PlayerView::stopped().song_title is None,
{
}

/// What is shown is what the state holds.
pub proof fn the_state_is_shown_as_it_is(state: PlayerState)
    ensures
        state@.playing == state.playing,
        state@.song_title is Some <==> state.song_title is Some,
        state.song_title is Some ==> state@.song_title == Some(state.song_title->0@),
{
}

/// A metadata block with a title sets the title, one without leaves it, and neither
/// starts nor stops the player.
pub proof fn a_block_sets_its_title(state: PlayerView, block: Seq<u8>)
    ensures
        ({
            let title = crate::title::title_of(crate::title::block_text(block));
            &&& title is Some ==> state.with_metadata(block).song_title == title
            &&& title is None ==> state.with_metadata(block) == state
            &&& state.with_metadata(block).playing == state.playing
        }),
{
}

} // verus!
