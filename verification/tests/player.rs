use r357::error::R357Error;
use r357::player::{
    begin_session, end_session, Command, PlayerState, PlayerWorker, SessionEnd, WorkerAction,
    MAX_RETRY_SECONDS,
};

fn shown(state: &PlayerState) -> (bool, Option<&str>) {
    (state.playing, state.song_title.as_deref())
}

#[test]
fn starting_and_stopping_forget_the_title() {
    let mut state = PlayerState::new();
    assert_eq!(shown(&state), (false, None));
    state.start();
    assert_eq!(shown(&state), (true, None));
    assert!(state.update_title("Song".to_string()));
    assert!(!state.update_title("Song".to_string()));
    assert_eq!(shown(&state), (true, Some("Song")));
    state.start();
    assert_eq!(shown(&state), (true, None));
    state.update_title("Song".to_string());
    state.stop();
    assert_eq!(shown(&state), (false, None));
}

#[test]
fn the_last_title_is_shown() {
    let mut state = PlayerState::new();
    state.start();
    assert!(state.apply_metadata(b"StreamTitle='One';\0\0"));
    assert!(state.apply_metadata(b"StreamTitle='Two';StreamUrl='x';\0"));
    assert!(!state.apply_metadata(b"StreamUrl='y';\0\0\0"));
    assert!(!state.apply_metadata(b"StreamTitle='open\0"));
    assert_eq!(shown(&state), (true, Some("Two")));
}

#[test]
fn a_session_leaves_the_player_stopped() {
    let mut state = PlayerState::new();
    begin_session(&mut state);
    assert_eq!(shown(&state), (true, None));
    assert!(end_session(&mut state, SessionEnd::Cancelled).is_ok());
    assert_eq!(shown(&state), (false, None));

    begin_session(&mut state);
    state.update_title("Song".to_string());
    let outcome = end_session(&mut state, SessionEnd::Ended(Err(R357Error::NotMp3Stream)));
    assert!(matches!(outcome, Err(R357Error::NotMp3Stream)));
    assert_eq!(shown(&state), (false, None));

    begin_session(&mut state);
    assert!(end_session(&mut state, SessionEnd::Ended(Ok(()))).is_ok());
}

#[test]
fn retries_last_twenty_minutes() {
    assert_eq!(MAX_RETRY_SECONDS, 20 * 60);
}

fn cancelled<T>(action: WorkerAction<T>) -> Vec<T> {
    match action {
        WorkerAction::Cancel(tokens) => tokens,
        _ => panic!("nothing is cancelled"),
    }
}

#[test]
fn stop_cancels_what_start_began() {
    let mut worker: PlayerWorker<u32> = PlayerWorker::new();
    assert!(matches!(worker.handle(Command::Stop, 1), WorkerAction::Nothing));
    assert!(matches!(worker.handle(Command::Start, 2), WorkerAction::Spawn));
    assert_eq!(cancelled(worker.handle(Command::Stop, 3)), vec![2]);
    assert!(matches!(worker.handle(Command::Stop, 4), WorkerAction::Nothing));
}

#[test]
fn stop_cancels_every_running_playback() {
    let mut worker: PlayerWorker<&str> = PlayerWorker::new();
    assert!(matches!(worker.handle(Command::Start, "first"), WorkerAction::Spawn));
    assert!(matches!(worker.handle(Command::Start, "second"), WorkerAction::Spawn));
    assert_eq!(cancelled(worker.handle(Command::Stop, "")), vec!["first", "second"]);
    assert!(matches!(worker.handle(Command::Stop, ""), WorkerAction::Nothing));
    assert!(matches!(worker.handle(Command::Start, "third"), WorkerAction::Spawn));
    assert_eq!(cancelled(worker.handle(Command::Stop, "")), vec!["third"]);
}

#[test]
fn messages_of_failures() {
    let cause = || "cause".to_string();
    assert_eq!(R357Error::NotMp3Stream.message(), "Not mp3 stream");
    assert_eq!(R357Error::BadMetaIntHeader.message(), "Bad metaint header");
    assert_eq!(R357Error::ConnectError(cause()).message(), "Connect error: cause");
    assert_eq!(R357Error::PulseError(cause()).message(), "PulseAudio error: cause");
    assert_eq!(R357Error::DecodeError(cause()).message(), "Symphonia error: cause");
    assert_eq!(R357Error::JoinError(cause()).message(), "Join error: cause");
    assert_eq!(
        R357Error::BadBinding.message(),
        "Bad binding: invalid IPv4 address syntax"
    );
    assert_eq!(
        R357Error::ServiceDiscoveryFailure(cause()).message(),
        "Failure of service discovery cause"
    );
    assert_eq!(R357Error::NoHostname.message(), "Hostname not given");
    assert_eq!(R357Error::IfaceError(cause()).message(), "Cannot get ifaces: cause");
    assert_eq!(R357Error::Other.message(), "Other failure");
}
