use backoff::future::{Retry, Sleeper};
use backoff::{ExponentialBackoff, ExponentialBackoffBuilder};
use r357::error::R357Error;
use r357::retry::{to_backoff_error, RetryError};
use std::cell::RefCell;
use std::future::Future;
use std::time::{Duration, Instant};
use tokio::time::Sleep;
use tokio_util::sync::CancellationToken;

struct MockedPlay {
    calls: u32,
}

impl MockedPlay {
    fn new() -> Self {
        MockedPlay { calls: 0u32 }
    }

    async fn execute(
        &mut self,
        result: Result<(), R357Error>,
    ) -> Result<(), backoff::Error<R357Error>> {
        self.calls += 1;

        let result = tokio::task::spawn_blocking(move || result).await;

        to_backoff_error(result.map_err(|e| e.to_string())).map_err(|e| match e {
            RetryError::Permanent(err) => backoff::Error::Permanent(err),
            RetryError::Transient { err, retry_after } => {
                backoff::Error::Transient { err, retry_after }
            }
        })
    }
}

struct TimerSleeper;

impl Sleeper for TimerSleeper {
    type Sleep = Sleep;
    fn sleep(&self, dur: Duration) -> Self::Sleep {
        tokio::time::sleep(dur)
    }
}

fn create_sleeper() -> impl Sleeper {
    TimerSleeper
}

fn run<F: Future>(future: F) -> F::Output {
    tokio::runtime::Builder::new_current_thread().enable_all().build().unwrap().block_on(future)
}

#[test]
fn retry_ok() {
    run(async {
        let backoff = ExponentialBackoff::default();
        let notify = |err: R357Error, dur: Duration| {
            println!("Retry error happened {} duration {:?}", err.message(), dur);
        };

        let mocked_play = MockedPlay::new();
        let mocked_play = RefCell::new(mocked_play);

        let play = || async {
            let mut mocked_play = mocked_play.borrow_mut();
            let result = mocked_play.execute(Ok(()));
            result.await
        };

        let result = backoff::future::retry_notify(backoff, play, notify).await;

        assert!(result.is_ok());
        assert_eq!(1, mocked_play.borrow().calls);
    });
}

#[test]
fn retry_error() {
    run(async {
        let backoff = ExponentialBackoffBuilder::new()
            .with_max_elapsed_time(Some(Duration::from_secs(2u64)))
            .build();
        let notify = |err: R357Error, dur: Duration| {
            println!("Retry error happened {} duration {:?}", err.message(), dur);
        };

        let mocked_play = MockedPlay::new();
        let mocked_play = RefCell::new(mocked_play);

        let func = || async {
            let mut mocked_play = mocked_play.borrow_mut();
            mocked_play.execute(Err(R357Error::Other)).await
        };

        let start_time = Instant::now();
        let result = backoff::future::retry_notify(backoff, func, notify).await;
        let duration = start_time.elapsed();

        assert!(result.is_err());
        assert!(Duration::from_secs(2u64) >= duration);
        assert!(duration <= Duration::from_secs(3u64));
        assert!(mocked_play.borrow().calls > 1);
    });
}

#[test]
fn retry_error_using_retry() {
    run(async {
        let backoff = ExponentialBackoffBuilder::new()
            .with_max_elapsed_time(Some(Duration::from_secs(2u64)))
            .build();
        let notify = |err: R357Error, dur: Duration| {
            println!("Retry error happened {} duration {:?}", err.message(), dur);
        };

        let mocked_play = MockedPlay::new();
        let mocked_play = RefCell::new(mocked_play);

        let func = || async {
            let mut mocked_play = mocked_play.borrow_mut();
            mocked_play.execute(Err(R357Error::Other)).await
        };

        let start_time = Instant::now();
        let sleeper = create_sleeper();
        let result = Retry::new(sleeper, backoff, notify, func).await;
        let duration = start_time.elapsed();

        assert!(result.is_err());
        assert!(Duration::from_secs(2u64) >= duration);
        assert!(duration <= Duration::from_secs(3u64));
        assert!(mocked_play.borrow().calls > 1);
    });
}

#[test]
fn retry_error_using_select() {
    run(async {
        let backoff = ExponentialBackoffBuilder::new()
            .with_max_elapsed_time(Some(Duration::from_secs(2u64)))
            .build();
        let notify = |err: R357Error, dur: Duration| {
            println!("Retry error happened {} duration {:?}", err.message(), dur);
        };

        let mocked_play = MockedPlay::new();
        let mocked_play = RefCell::new(mocked_play);

        let func = || async {
            let mut mocked_play = mocked_play.borrow_mut();
            mocked_play.execute(Err(R357Error::Other)).await
        };

        let start_time = Instant::now();
        let sleeper = create_sleeper();
        let retry = Retry::new(sleeper, backoff, notify, func);
        let token = CancellationToken::new();
        let result = token.run_until_cancelled(retry).await.unwrap();
        let duration = start_time.elapsed();

        assert!(result.is_err());
        assert!(Duration::from_secs(2u64) >= duration);
        assert!(duration <= Duration::from_secs(3u64));
        assert!(mocked_play.borrow().calls > 1);
    });
}

#[test]
fn every_failure_may_be_retried() {
    assert!(to_backoff_error(Ok(Ok(()))).is_ok());
    assert!(matches!(
        to_backoff_error(Ok(Err(R357Error::NotMp3Stream))),
        Err(RetryError::Transient { err: R357Error::NotMp3Stream, retry_after: None })
    ));
    match to_backoff_error(Err("task panicked".to_string())) {
        Err(RetryError::Transient { err: R357Error::JoinError(cause), retry_after: None }) => {
            assert_eq!(cause, "task panicked")
        }
        other => panic!("{:?}", other),
    }
}
