use crate::throughput::{average_of, nat_seq, sum_of, Snapshot};
use vstd::prelude::*;

verus! {

/// Bytes in one KiB.
pub const KIB: u64 = 1024;

/// Bytes in one MiB.
pub const MIB: u64 = 1048576;

/// A byte rate in the three units that status lines show.
#[derive(Clone, Copy, Debug, PartialEq, Eq, Structural)]
pub struct Speed {
    pub bytes_per_sec: u64,
    pub kib_per_sec: u64,
    pub mib_per_sec: u64,
}

impl Speed {
    /// Expresses `bytes_per_sec` also in KiB/s and MiB/s, rounded down.
    pub fn from_bytes_per_sec(bytes_per_sec: u64) -> (r: Speed)
        ensures
            r.bytes_per_sec == bytes_per_sec,
            r.kib_per_sec == bytes_per_sec / KIB,
            r.mib_per_sec == bytes_per_sec / MIB,
    {
        Speed {
            bytes_per_sec,
            kib_per_sec: bytes_per_sec / KIB,
            mib_per_sec: bytes_per_sec / MIB,
        }
    }
}

/// What the final summary line reports.
#[derive(Clone, Copy, Debug, PartialEq, Eq, Structural)]
pub struct Summary {
    pub total_bytes: u64,
    pub speed: Speed,
}

/// The speed that one reporter tick shows: the average of the closed windows.
pub fn tick_speed(snapshot: &Snapshot) -> (r: Speed)
    requires
        sum_of(nat_seq(snapshot.recent_windows@)) <= u64::MAX,
    ensures
        r.bytes_per_sec == average_of(nat_seq(snapshot.recent_windows@)),
        r.kib_per_sec == r.bytes_per_sec / KIB,
        r.mib_per_sec == r.bytes_per_sec / MIB,
{
    Speed::from_bytes_per_sec(snapshot.average())
}

/// The final summary: every byte recorded and the closing average speed.
pub fn summarize(snapshot: &Snapshot) -> (r: Summary)
    requires
        sum_of(nat_seq(snapshot.recent_windows@)) <= u64::MAX,
    ensures
        r.total_bytes == snapshot.total_bytes_downloaded,
        r.speed.bytes_per_sec == average_of(nat_seq(snapshot.recent_windows@)),
        r.speed.kib_per_sec == r.speed.bytes_per_sec / KIB,
        r.speed.mib_per_sec == r.speed.bytes_per_sec / MIB,
{
    Summary { total_bytes: snapshot.total_bytes_downloaded, speed: tick_speed(snapshot) }
}

} // verus!
