//! Replay pacing for a recorded bag: each entry's wall-clock stamp is mapped,
//! relative to the bag's first stamp, onto the playback start time, so
//! inter-event spacing is reproduced regardless of when the bag was taken.
//! Reading and writing the bag's files is the caller's business; the player
//! works on the entry stamps alone.

use vstd::prelude::*;
use crate::clock::TIME_LIMIT_NS;

verus! {

/// What kind of event an entry is.
#[derive(Clone, Copy, Debug, PartialEq, Eq, Structural)]
pub enum EntryKind {
    Odometry,
    Images,
}

/// One log entry: its kind and its original wall-clock stamp.
#[derive(Clone, Copy, Debug, PartialEq, Eq, Structural)]
pub struct BagEntry {
    pub kind: EntryKind,
    pub stamp_ns: u64,
}

/// A loaded bag and a cursor, replaying against a start time.
pub struct Player {
    entries: Vec<BagEntry>,
    idx: usize,
    first_stamp: u64,
    start_ns: u64,
}

impl Player {
    pub closed spec fn spec_entries(&self) -> Seq<BagEntry> {
        self.entries@
    }

    pub closed spec fn spec_idx(&self) -> int {
        self.idx as int
    }

    pub closed spec fn spec_start(&self) -> u64 {
        self.start_ns
    }

    pub closed spec fn spec_first(&self) -> u64 {
        self.first_stamp
    }

    pub open spec fn wf(&self) -> bool {
        &&& self.spec_entries().len() > 0
        &&& 0 <= self.spec_idx() <= self.spec_entries().len()
        &&& self.spec_first() == self.spec_entries()[0].stamp_ns
        &&& self.spec_start() <= TIME_LIMIT_NS
        &&& forall|i: int|
            0 <= i < self.spec_entries().len() ==> self.spec_first()
                <= (#[trigger] self.spec_entries()[i]).stamp_ns <= TIME_LIMIT_NS
    }

    /// When an entry plays: the start time plus the entry's distance from the
    /// bag's first stamp.
    pub open spec fn s_play_time(&self, i: int) -> int {
        self.spec_start() + (self.spec_entries()[i].stamp_ns - self.spec_first())
    }

    /// Load a bag for replay starting at `start_ns`. Refused when empty, when
    /// an entry predates the first one, or when a stamp is out of range.
    pub fn new(entries: Vec<BagEntry>, start_ns: u64) -> (r: Option<Player>)
        ensures
            match r {
                Option::Some(p) => {
                    &&& p.wf()
                    &&& p.spec_entries() == entries@
                    &&& p.spec_idx() == 0
                    &&& p.spec_start() == start_ns
                },
                Option::None => entries@.len() == 0 || start_ns > TIME_LIMIT_NS || exists|i: int|
                    0 <= i < entries@.len() && ((#[trigger] entries@[i]).stamp_ns
                        < entries@[0].stamp_ns || entries@[i].stamp_ns > TIME_LIMIT_NS),
            },
    {
        if entries.len() == 0 || start_ns > TIME_LIMIT_NS as u64 {
            return None;
        }
        let first_stamp = entries[0].stamp_ns;
        let n = entries.len();
        let mut i: usize = 0;
        while i < n
            invariant
                n == entries@.len(),
                n > 0,
                i <= n,
                first_stamp == entries@[0].stamp_ns,
                forall|t: int|
                    0 <= t < i ==> first_stamp <= (#[trigger] entries@[t]).stamp_ns
                        <= TIME_LIMIT_NS,
            decreases n - i,
        {
            if entries[i].stamp_ns < first_stamp || entries[i].stamp_ns > TIME_LIMIT_NS as u64 {
                proof {
                    assert((#[trigger] entries@[i as int]).stamp_ns < entries@[0].stamp_ns
                        || entries@[i as int].stamp_ns > TIME_LIMIT_NS);
                }
                return None;
            }
            i += 1;
        }
        Some(Player { entries, idx: 0, first_stamp, start_ns })
    }

    /// When the next event should play, or `None` when the bag is exhausted.
    pub fn poll_next_event_time(&self) -> (r: Option<u64>)
        requires
            self.wf(),
        ensures
            match r {
                Option::Some(t) => self.spec_idx() < self.spec_entries().len() && t
                    == self.s_play_time(self.spec_idx()),
                Option::None => self.spec_idx() == self.spec_entries().len(),
            },
    {
        if self.idx < self.entries.len() {
            let e = self.entries[self.idx];
            Some(self.start_ns + (e.stamp_ns - self.first_stamp))
        } else {
            None
        }
    }

    /// Take the next event, its stamp remapped into replay time.
    pub fn next_event(&mut self) -> (r: Option<BagEntry>)
        requires
            old(self).wf(),
        ensures
            final(self).wf(),
            final(self).spec_entries() == old(self).spec_entries(),
            final(self).spec_start() == old(self).spec_start(),
            match r {
                Option::Some(e) => {
                    &&& old(self).spec_idx() < old(self).spec_entries().len()
                    &&& final(self).spec_idx() == old(self).spec_idx() + 1
                    &&& e.kind == old(self).spec_entries()[old(self).spec_idx()].kind
                    &&& e.stamp_ns == old(self).s_play_time(old(self).spec_idx())
                },
                Option::None => old(self).spec_idx() == old(self).spec_entries().len()
                    && final(self).spec_idx() == old(self).spec_idx(),
            },
    {
        if self.idx < self.entries.len() {
            let e = self.entries[self.idx];
            self.idx = self.idx + 1;
            Some(
                BagEntry {
                    kind: e.kind,
                    stamp_ns: self.start_ns + (e.stamp_ns - self.first_stamp),
                },
            )
        } else {
            None
        }
    }
}

/// Replay pacing is faithful: the gap between any two replayed events equals
/// the gap between their original stamps, and the first entry plays exactly
/// at the start time.
pub proof fn lemma_replay_spacing(p: Player, i: int, j: int)
    requires
        p.wf(),
        0 <= i < p.spec_entries().len(),
        0 <= j < p.spec_entries().len(),
    ensures
        p.s_play_time(j) - p.s_play_time(i) == p.spec_entries()[j].stamp_ns
            - p.spec_entries()[i].stamp_ns,
        p.s_play_time(0) == p.spec_start(),
{
}

} // verus!
