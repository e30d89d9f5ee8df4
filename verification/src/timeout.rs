//! How long is waited for a descriptor to become readable.

use nix::sys::time::{TimeVal, TimeValLike};
use vstd::prelude::*;

verus! {

/// Seconds and microseconds to wait.
#[derive(Debug, Clone, Copy, PartialEq, Eq, Structural)]
pub struct Timeout {
    pub seconds: i64,
    pub microseconds: i64,
}

/// Calls `TimeVal::seconds` of the `nix` crate. Claimed of it: the value that it
/// makes has the given seconds and no microseconds. It panics on seconds out of
/// its bounds, which are at least those of an `i32` on every platform.
#[verifier::external_body]
fn timeval_seconds(seconds: i64) -> (parts: (i64, i64))
    requires
        0 <= seconds <= i32::MAX,
    ensures
        parts.0 == seconds,
        parts.1 == 0,
{
    let value = TimeVal::seconds(seconds);
    (value.tv_sec() as i64, value.tv_usec() as i64)
}

/// Calls `TimeVal::milliseconds` of the `nix` crate. Claimed of it: the value that
/// it makes has the whole seconds among the given milliseconds, and the rest in
/// microseconds. It panics on seconds out of its bounds, which are at least those
/// of an `i32` on every platform.
#[verifier::external_body]
fn timeval_milliseconds(milliseconds: i64) -> (parts: (i64, i64))
    requires
        0 <= milliseconds <= i32::MAX,
    ensures
        parts.0 == milliseconds as int / 1000,
        parts.1 == (milliseconds as int % 1000) * 1000,
{
    let value = TimeVal::milliseconds(milliseconds);
    (value.tv_sec() as i64, value.tv_usec() as i64)
}

/// How long the background process has for its reply: five seconds.
pub fn reply_timeout() -> (timeout: Timeout)
    ensures
        timeout == (Timeout { seconds: 5, microseconds: 0 }),
{
    let (seconds, microseconds) = timeval_seconds(5);
    Timeout { seconds, microseconds }
}

/// How long one round of the viewer waits: fifty milliseconds.
pub fn round_timeout() -> (timeout: Timeout)
    ensures
        timeout == (Timeout { seconds: 0, microseconds: 50_000 }),
{
    let (seconds, microseconds) = timeval_milliseconds(50);
    Timeout { seconds, microseconds }
}

/// The reply may take as long as a hundred rounds of the viewer, and that is five
/// seconds.
pub proof fn law_reply_may_take_a_hundred_rounds(reply: Timeout, round: Timeout)
    requires
        call_ensures(reply_timeout, (), reply),
        call_ensures(round_timeout, (), round),
    ensures
        reply.seconds * 1_000_000 + reply.microseconds == 5_000_000,
        100 * (round.seconds * 1_000_000 + round.microseconds) == reply.seconds * 1_000_000
            + reply.microseconds,
        0 <= reply.microseconds < 1_000_000,
        0 <= round.microseconds < 1_000_000,
{
}

} // verus!
