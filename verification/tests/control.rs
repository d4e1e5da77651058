use r357::control::{answer, route, Request};
use r357::logging::{choose_sink, LogSink, DEFAULT_LOG_FILTER};
use r357::player::Command;

#[test]
fn what_is_offered() {
    assert_eq!(route("GET", "/status"), Request::Status);
    assert_eq!(route("POST", "/start"), Request::Submit(Command::Start));
    assert_eq!(route("POST", "/stop"), Request::Submit(Command::Stop));
}

#[test]
fn only_the_first_segment_decides() {
    assert_eq!(route("GET", "/status/"), Request::Status);
    assert_eq!(route("GET", "/status/of/what"), Request::Status);
    assert_eq!(route("POST", "/start//"), Request::Submit(Command::Start));
    assert_eq!(route("POST", "stop"), Request::Submit(Command::Stop));
    assert_eq!(route("GET", "//status"), Request::Refused);
    assert_eq!(route("GET", "/statuses"), Request::Refused);
}

#[test]
fn what_is_refused() {
    for (method, path) in [
        ("POST", "/status"),
        ("GET", "/start"),
        ("GET", "/stop"),
        ("PUT", "/start"),
        ("HEAD", "/status"),
        ("get", "/status"),
        ("GET", "/Status"),
        ("GET", "/"),
        ("GET", ""),
        ("POST", "/pause"),
    ] {
        assert_eq!(route(method, path), Request::Refused, "{} {}", method, path);
    }
}

#[test]
fn answers() {
    assert_eq!(answer(Request::Status, true), 200);
    assert_eq!(answer(Request::Submit(Command::Start), true), 202);
    assert_eq!(answer(Request::Submit(Command::Stop), true), 202);
    assert_eq!(answer(Request::Submit(Command::Start), false), 500);
    assert_eq!(answer(Request::Submit(Command::Stop), false), 500);
    assert_eq!(answer(Request::Refused, false), 405);
    assert_eq!(answer(Request::Refused, true), 405);
}

#[test]
fn the_journal_is_used_if_it_can_be() {
    assert_eq!(choose_sink(true, true), LogSink::Journald);
    assert_eq!(choose_sink(true, false), LogSink::Stdout);
    assert_eq!(choose_sink(false, true), LogSink::Stdout);
    assert_eq!(choose_sink(false, false), LogSink::Stdout);
    assert_eq!(DEFAULT_LOG_FILTER, "error,r357=debug");
}
