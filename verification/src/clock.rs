//! Server-clock offset estimation from ping/pong round trips, and latency of
//! stamped messages under the estimated offset. Times are nanoseconds.

use vstd::prelude::*;
use crate::num::floor_div_i64;

verus! {

/// Bound on accepted timestamps (nanoseconds): roughly 73 years.
pub const TIME_LIMIT_NS: i64 = 0x2000_0000_0000_0000;

/// The estimate: the pong's server time, minus the client-clock midpoint of
/// the round trip.
pub open spec fn s_offset(client_send_ns: int, client_recv_ns: int, server_time_ns: int) -> int {
    server_time_ns - (client_recv_ns - (client_recv_ns - client_send_ns) / 2)
}

/// Offset of the server clock against the client clock, from one pong: the
/// ping left at `client_send_ns`, the pong arrived at `client_recv_ns` and
/// carried `server_time_ns`.
pub fn estimate_offset(client_send_ns: i64, client_recv_ns: i64, server_time_ns: i64) -> (r: i64)
    requires
        0 <= client_send_ns <= client_recv_ns <= TIME_LIMIT_NS,
        0 <= server_time_ns <= TIME_LIMIT_NS,
    ensures
        r == s_offset(client_send_ns as int, client_recv_ns as int, server_time_ns as int),
{
    let rtt = client_recv_ns - client_send_ns;
    let half = floor_div_i64(rtt, 2);
    server_time_ns - (client_recv_ns - half)
}

/// Client-observed latency of a server-stamped message: the current client
/// time corrected into server time, minus the stamp.
pub open spec fn s_latency(now_ns: int, offset_ns: int, stamp_ns: int) -> int {
    now_ns + offset_ns - stamp_ns
}

pub fn latency_ns(now_ns: i64, offset_ns: i64, stamp_ns: i64) -> (r: i64)
    requires
        0 <= now_ns <= TIME_LIMIT_NS,
        -TIME_LIMIT_NS <= offset_ns <= TIME_LIMIT_NS,
        0 <= stamp_ns <= TIME_LIMIT_NS,
    ensures
        r == s_latency(now_ns as int, offset_ns as int, stamp_ns as int),
{
    let corrected: i64 = now_ns + offset_ns;
    corrected - stamp_ns
}

/// Clock-offset accuracy: if the server stamped the pong at some instant
/// within the round trip and its clock runs `skew` ahead of the client's,
/// the estimate misses `skew` by at most half the round-trip time (rounded
/// against the estimate).
pub proof fn lemma_offset_error_bound(
    client_send_ns: int,
    client_recv_ns: int,
    server_stamp_client_ns: int,
    skew: int,
)
    requires
        client_send_ns <= server_stamp_client_ns <= client_recv_ns,
    ensures
        s_offset(client_send_ns, client_recv_ns, server_stamp_client_ns + skew) - skew <= (
        client_recv_ns - client_send_ns) / 2,
        skew - s_offset(client_send_ns, client_recv_ns, server_stamp_client_ns + skew) <= (
        client_recv_ns - client_send_ns) - (client_recv_ns - client_send_ns) / 2,
{
}

} // verus!
