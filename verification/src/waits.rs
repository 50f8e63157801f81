//! How long to wait for what, in milliseconds unless said otherwise.

use vstd::prelude::*;

verus! {

/// A keepalive is sent when so much time has passed since the last.
pub const KEEPALIVE_MILLIS: u64 = 15000;

/// What is put into the keepalive settings of a connection, in seconds.
pub const CONNECTION_KEEPALIVE_SECONDS: u32 = 30;

/// A report of a transfer comes when so much time has passed since the last.
pub const REPORT_MILLIS: u64 = 150;

/// A question to the user is given up after so long.
pub const PROMPT_MILLIS: u64 = 300000;

/// The worker of a file session sends a keepalive when no message has come for
/// so long.
pub const WORKER_MILLIS: u64 = 10000;

/// The time between two looks at a file that is edited.
pub const WATCH_MILLIS: u64 = 1500;

/// A connection to a host has to come about in so long.
pub const CONNECT_MILLIS: u64 = 10000;

/// A read from a host, and a write to it, has to come about in so long.
pub const SOCKET_MILLIS: u64 = 30000;

/// A client of a dynamic tunnel has so long for each part of its handshake.
pub const HANDSHAKE_MILLIS: u64 = 10000;

/// A loop that passes bytes on rests so long when nothing moved.
pub const IDLE_MILLIS: u64 = 4;

/// A loop that accepts connections rests so long when none came.
pub const ACCEPT_MILLIS: u64 = 10;

/// A break on a serial line lasts so long.
pub const BREAK_MILLIS: u64 = 300;

/// A read from a serial line waits so long for a byte.
pub const SERIAL_MILLIS: u64 = 60;

/// What is left of a wait.
pub open spec fn left(limit: u64, waited: u64) -> u64 {
    if waited < limit {
        (limit - waited) as u64
    } else {
        0
    }
}

/// How much longer to wait where the wait lasts for `limit` in all.
pub fn time_left(limit: u64, waited: u64) -> (r: u64)
    ensures
        r == left(limit, waited),
{
    if waited < limit {
        limit - waited
    } else {
        0
    }
}

/// What is left of a wait, and what was waited, make up the limit; once it is
/// over, nothing is left.
pub proof fn law_a_wait_comes_to_its_limit(limit: u64, waited: u64)
    ensures
        waited <= limit ==> left(limit, waited) + waited == limit,
        waited >= limit ==> left(limit, waited) == 0,
{
}

/// The waits have their lengths: the three keepalives ten, fifteen and thirty
/// seconds, a person five minutes, and a look at an edited file one and a half
/// seconds.
pub proof fn law_waits_have_their_lengths()
    ensures
        WORKER_MILLIS == 10 * 1000,
        KEEPALIVE_MILLIS == 15 * 1000,
        CONNECTION_KEEPALIVE_SECONDS == 30,
        SOCKET_MILLIS == 30 * 1000,
        CONNECT_MILLIS == 10 * 1000,
        HANDSHAKE_MILLIS == 10 * 1000,
        PROMPT_MILLIS == 5 * 60 * 1000,
        WATCH_MILLIS == 1500,
        REPORT_MILLIS == 150,
        BREAK_MILLIS == 300,
        SERIAL_MILLIS == 60,
        ACCEPT_MILLIS == 10,
        IDLE_MILLIS == 4,
{
}

} // verus!
