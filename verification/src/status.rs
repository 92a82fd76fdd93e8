//! Device status values, their wire tokens, and the liveness-endpoint parser.

use vstd::prelude::*;

verus! {

/// The status a device can be in. `OFFLINE` is reserved for the hub's own
/// timeout path: a device can never report it (see [`spec_parse_status`]).
#[derive(Clone, Copy, PartialEq, Eq, Structural, Debug)]
pub enum DyscyplinerStatus {
    GOOD,
    ANGRY,
    DYSCIPLINED,
    OFFLINE,
}

/// The token under which a status appears in broadcast messages.
pub open spec fn spec_status_token(s: DyscyplinerStatus) -> Seq<char> {
    match s {
        DyscyplinerStatus::GOOD => "GOOD"@,
        DyscyplinerStatus::ANGRY => "ANGRY"@,
        DyscyplinerStatus::DYSCIPLINED => "DYSCIPLINED"@,
        DyscyplinerStatus::OFFLINE => "OFFLINE"@,
    }
}

impl DyscyplinerStatus {
    /// The wire token of this status.
    pub fn token(&self) -> (r: &'static str)
        ensures
            r@ == spec_status_token(*self),
    {
        match *self {
            DyscyplinerStatus::GOOD => "GOOD",
            DyscyplinerStatus::ANGRY => "ANGRY",
            DyscyplinerStatus::DYSCIPLINED => "DYSCIPLINED",
            DyscyplinerStatus::OFFLINE => "OFFLINE",
        }
    }
}

/// What the liveness endpoint accepts: exactly the lowercase tokens of the
/// three statuses a device may report. Anything else, an explicit offline
/// token included, is rejected.
pub open spec fn spec_parse_status(s: Seq<char>) -> Option<DyscyplinerStatus> {
    if s == "good"@ {
        Some(DyscyplinerStatus::GOOD)
    } else if s == "angry"@ {
        Some(DyscyplinerStatus::ANGRY)
    } else if s == "dysciplined"@ {
        Some(DyscyplinerStatus::DYSCIPLINED)
    } else {
        None
    }
}

/// Character-for-character string equality.
pub fn str_eq(a: &str, b: &str) -> (r: bool)
    ensures
        r == (a@ == b@),
{
    let x = a.to_owned();
    let y = b.to_owned();
    x == y
}

/// Parses a status token from the liveness endpoint.
pub fn parse_status_token(s: &str) -> (r: Option<DyscyplinerStatus>)
    ensures
        r == spec_parse_status(s@),
{
    if str_eq(s, "good") {
        Some(DyscyplinerStatus::GOOD)
    } else if str_eq(s, "angry") {
        Some(DyscyplinerStatus::ANGRY)
    } else if str_eq(s, "dysciplined") {
        Some(DyscyplinerStatus::DYSCIPLINED)
    } else {
        None
    }
}

/// No status token whatsoever parses to `OFFLINE`: a device cannot report
/// itself offline; only the hub's timeout sweep imposes that state.
pub proof fn lemma_offline_never_parsed(s: Seq<char>)
    ensures
        spec_parse_status(s) != Some(DyscyplinerStatus::OFFLINE),
{
}

} // verus!
