//! The HTTP interface by which the daemon is controlled.

use vstd::prelude::*;

use crate::player::Command;
use crate::text::{chars_of, find_char};

verus! {

/// What a request asks for.
#[derive(Debug, Clone, Copy, PartialEq, Eq)]
pub enum Request {
    /// Tell the state of the player.
    Status,
    /// Pass a command on to the worker.
    Submit(Command),
    /// Nothing that is offered.
    Refused,
}

/// The part of a path that decides: what stands before the second slash, without
/// the slash that a path begins with.
pub open spec fn first_segment(path: Seq<char>) -> Seq<char> {
    let relative = if path.len() > 0 && path[0] == '/' {
        path.skip(1)
    } else {
        path
    };
    relative.take(crate::text::first_of(relative, '/') as int)
}

/// What a method and a path ask for.
pub open spec fn request_of(method: Seq<char>, path: Seq<char>) -> Request {
    let segment = first_segment(path);
    if method == "GET"@ && segment == "status"@ {
        Request::Status
    } else if method == "POST"@ && segment == "start"@ {
        Request::Submit(Command::Start)
    } else if method == "POST"@ && segment == "stop"@ {
        Request::Submit(Command::Stop)
    } else {
        Request::Refused
    }
}

/// Decides what a request asks for. Only its method and its path count.
pub fn route(method: &str, path: &str) -> (request: Request)
    ensures
        request == request_of(method@, path@),
{
    let chars: Vec<char> = chars_of(path);
    let from: usize = if chars.len() > 0 && chars[0] == '/' {
        1
    } else {
        0
    };
    let to: usize = find_char(&chars, from, chars.len(), '/');
    let segment: String = path.substring_char(from, to).to_owned();
    assert(segment@ =~= first_segment(path@)) by {
        let relative = path@.subrange(from as int, path@.len() as int);
        assert(relative =~= if path@.len() > 0 && path@[0] == '/' {
            path@.skip(1)
        } else {
            path@
        });
        assert(relative.take(to - from) =~= path@.subrange(from as int, to as int));
    }
    let method: String = method.to_owned();
    if method == "GET".to_owned() && segment == "status".to_owned() {
        Request::Status
    } else if method == "POST".to_owned() && segment == "start".to_owned() {
        Request::Submit(Command::Start)
    } else if method == "POST".to_owned() && segment == "stop".to_owned() {
        Request::Submit(Command::Stop)
    } else {
        Request::Refused
    }
}

/// The HTTP status of the answer to a request. `delivered` tells whether the worker
/// took the command that the request submits.
pub open spec fn answer_to(request: Request, delivered: bool) -> u16 {
    match request {
        Request::Status => 200,
        Request::Submit(_) => if delivered {
            202
        } else {
            500
        },
        Request::Refused => 405,
    }
}

/// Gives the HTTP status of the answer to a request.
pub fn answer(request: Request, delivered: bool) -> (status: u16)
    ensures
        status == answer_to(request, delivered),
{
    match request {
        Request::Status => 200,
        Request::Submit(_) => if delivered {
            202
        } else {
            500
        },
        Request::Refused => 405,
    }
}

/// What is offered is `GET /status`, `POST /start` and `POST /stop`, each with
/// whatever path behind it. Any other request submits no command and is answered
/// that its method is not allowed.
pub proof fn only_what_is_offered_acts(method: Seq<char>, path: Seq<char>, delivered: bool)
    ensures
        ({
            let request = request_of(method, path);
            let segment = first_segment(path);
            &&& request is Status <==> method == "GET"@ && segment == "status"@
            &&& request == Request::Submit(Command::Start) <==> method == "POST"@ && segment
                == "start"@
            &&& request == Request::Submit(Command::Stop) <==> method == "POST"@ && segment
                == "stop"@
            &&& request is Refused <==> answer_to(request, delivered) == 405
        }),
{
    reveal_strlit("GET");
    reveal_strlit("POST");
    reveal_strlit("start");
    reveal_strlit("stop");
    assert("GET"@.len() != "POST"@.len());
    assert("start"@.len() != "stop"@.len());
}

/// Slashes and further segments behind the first one change nothing.
pub proof fn only_the_first_segment_counts(method: Seq<char>, segment: Seq<char>, more: Seq<char>)
    requires
        !segment.contains('/'),
    ensures
        request_of(method, seq!['/'] + segment) == request_of(
            method,
            seq!['/'] + segment + seq!['/'] + more,
        ),
{
    let short = seq!['/'] + segment;
    let long = seq!['/'] + segment + seq!['/'] + more;
    assert(short.skip(1) =~= segment);
    crate::text::lemma_first_of(segment, '/');
    crate::text::lemma_first_of(long.skip(1), '/');
    let at = crate::text::first_of(long.skip(1), '/') as int;
    assert(long.skip(1)[segment.len() as int] == '/');
    assert forall|i: int| 0 <= i < segment.len() implies long.skip(1)[i] == segment[i] by {}
    if at < segment.len() {
        assert(segment[at] == '/');
    }
    assert(at == segment.len());
    assert(first_segment(short) =~= segment);
    assert(first_segment(long) =~= segment);
}

/// What a path asks for is decided by the characters up to the second slash: with or
/// without a slash in front, and with or without a slash and more behind.
pub proof fn every_path_is_read_up_to_its_second_slash(
    method: Seq<char>,
    slash: bool,
    segment: Seq<char>,
    more: Option<Seq<char>>,
)
    requires
        !segment.contains('/'),
        slash || segment.len() > 0 || more is None,
    ensures
        ({
            let front = if slash {
                seq!['/'] + segment
            } else {
                segment
            };
            let path = match more {
                Some(rest) => front + seq!['/'] + rest,
                None => front,
            };
            let request = request_of(method, path);
            &&& method == "GET"@ && segment == "status"@ <==> request is Status
            &&& method == "POST"@ && segment == "start"@ <==> request == Request::Submit(
                Command::Start,
            )
            &&& method == "POST"@ && segment == "stop"@ <==> request == Request::Submit(
                Command::Stop,
            )
        }),
{
    let front = if slash {
        seq!['/'] + segment
    } else {
        segment
    };
    let path = match more {
        Some(rest) => front + seq!['/'] + rest,
        None => front,
    };
    let relative = if path.len() > 0 && path[0] == '/' {
        path.skip(1)
    } else {
        path
    };
    let behind = match more {
        Some(rest) => seq!['/'] + rest,
        None => Seq::empty(),
    };
    if !slash && segment.len() > 0 {
        assert(segment.contains(segment[0]));
        assert(path[0] == segment[0]);
    }
    assert(relative =~= segment + behind);
    crate::text::lemma_first_of(relative, '/');
    let at = crate::text::first_of(relative, '/') as int;
    if at < segment.len() {
        assert(segment[at] == relative[at]);
        assert(segment.contains('/'));
    }
    if more is Some {
        assert(relative[segment.len() as int] == '/');
    }
    assert(at == segment.len());
    assert(first_segment(path) =~= segment);
    only_what_is_offered_acts(method, path, true);
}

/// The status is answered with success, a command with acceptance or, if nobody took
/// it, with a failure of the server, and anything else with a refusal.
pub proof fn every_request_has_its_answer(command: Command, delivered: bool)
    ensures
        answer_to(Request::Status, delivered) == 200,
        answer_to(Request::Submit(command), true) == 202,
        answer_to(Request::Submit(command), false) == 500,
        answer_to(Request::Refused, delivered) == 405,
{
}

} // verus!
