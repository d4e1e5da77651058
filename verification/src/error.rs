//! What can go wrong between a command and the sound it asks for.

use vstd::prelude::*;

verus! {

/// Every failure of the daemon. A variant that stands for a failure of another
/// component carries that component's own description of it.
#[derive(Debug)]
pub enum R357Error {
    NotMp3Stream,
    BadMetaIntHeader,
    ConnectError(String),
    PulseError(String),
    DecodeError(String),
    JoinError(String),
    BadBinding,
    ServiceDiscoveryFailure(String),
    NoHostname,
    IfaceError(String),
    Other,
}

impl R357Error {
    /// The text shown to a user for this failure.
    pub open spec fn text(self) -> Seq<char> {
        match self {
            R357Error::NotMp3Stream => "Not mp3 stream"@,
            R357Error::BadMetaIntHeader => "Bad metaint header"@,
            R357Error::ConnectError(cause) => "Connect error: "@ + cause@,
            R357Error::PulseError(cause) => "PulseAudio error: "@ + cause@,
            R357Error::DecodeError(cause) => "Symphonia error: "@ + cause@,
            R357Error::JoinError(cause) => "Join error: "@ + cause@,
            R357Error::BadBinding => "Bad binding: invalid IPv4 address syntax"@,
            R357Error::ServiceDiscoveryFailure(cause) => "Failure of service discovery "@ + cause@,
            R357Error::NoHostname => "Hostname not given"@,
            R357Error::IfaceError(cause) => "Cannot get ifaces: "@ + cause@,
            R357Error::Other => "Other failure"@,
        }
    }

    /// Renders the failure for a user.
    pub fn message(&self) -> (shown: String)
        ensures
            shown@ == self.text(),
    {
        match self {
            R357Error::NotMp3Stream => "Not mp3 stream".to_owned(),
            R357Error::BadMetaIntHeader => "Bad metaint header".to_owned(),
            R357Error::ConnectError(cause) => "Connect error: ".to_owned().concat(cause.as_str()),
            R357Error::PulseError(cause) => "PulseAudio error: ".to_owned().concat(cause.as_str()),
            R357Error::DecodeError(cause) => "Symphonia error: ".to_owned().concat(cause.as_str()),
            R357Error::JoinError(cause) => "Join error: ".to_owned().concat(cause.as_str()),
            R357Error::BadBinding => "Bad binding: invalid IPv4 address syntax".to_owned(),
            R357Error::ServiceDiscoveryFailure(cause) => "Failure of service discovery ".to_owned().concat(
                cause.as_str(),
            ),
            R357Error::NoHostname => "Hostname not given".to_owned(),
            R357Error::IfaceError(cause) => "Cannot get ifaces: ".to_owned().concat(cause.as_str()),
            R357Error::Other => "Other failure".to_owned(),
        }
    }
}

/// A failure of another component is shown with that component's description behind
/// what failed, word for word.
pub proof fn every_cause_is_shown(cause: String)
    ensures
        R357Error::ConnectError(cause).text() == "Connect error: "@ + cause@,
        R357Error::PulseError(cause).text() == "PulseAudio error: "@ + cause@,
        R357Error::DecodeError(cause).text() == "Symphonia error: "@ + cause@,
        R357Error::JoinError(cause).text() == "Join error: "@ + cause@,
        R357Error::ServiceDiscoveryFailure(cause).text() == "Failure of service discovery "@
            + cause@,
        R357Error::IfaceError(cause).text() == "Cannot get ifaces: "@ + cause@,
{
}

} // verus!
