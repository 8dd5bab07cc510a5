use vstd::prelude::*;

use crate::types::PoreState;

verus! {

/// One state-change event of a pore, and the read matched to it, if any.
///
/// `read_idx` is the position of the matched read in the read sequence
/// that the matching pass was given.
#[derive(Clone, Copy, Debug)]
pub struct MuxStat {
    pub start_ns: u64,
    pub read_start_ns: u64,
    pub read_idx: Option<usize>,
    pub pore_state: PoreState,
}

impl MuxStat {
    /// An event at `start_ns` with state `pore_state` and no match yet.
    pub fn new(start_ns: u64, pore_state: PoreState) -> (r: MuxStat)
        ensures
            r == (MuxStat { start_ns, read_start_ns: 0, read_idx: None, pore_state }),
    {
        MuxStat { start_ns, read_start_ns: 0, read_idx: None, pore_state }
    }
}

/// The events of one pore in file order, and the cursor of a matching pass.
///
/// `last_entry` counts the events already behind the pass, in the pass's
/// own direction of time.
#[derive(Clone, Debug)]
pub struct PoreMuxStats {
    pub muxs: Vec<MuxStat>,
    pub last_entry: usize,
}

/// A timeline as a mathematical value: its events and its cursor.
pub type TimelineModel = (Seq<MuxStat>, int);

/// Whether a read at time `t` lies before an event at time `e`, in the
/// direction of the pass (`forward` is ascending time).
pub open spec fn precedes(forward: bool, t: u64, e: u64) -> bool {
    if forward {
        t < e
    } else {
        t > e
    }
}

/// `m` with read number `j`, started at `t`, recorded as its match.
pub open spec fn record(m: MuxStat, j: usize, t: u64) -> MuxStat {
    MuxStat { read_start_ns: t, read_idx: Some(j), ..m }
}

/// The scan of one read (number `j`, at time `t`) through the events from
/// position `i` on: events that the read has reached are passed, and the
/// first event still ahead of it takes the read if its state is `target`.
/// Gives the new events and the new cursor.
pub open spec fn scan(
    forward: bool,
    muxs: Seq<MuxStat>,
    i: int,
    t: u64,
    j: usize,
    target: PoreState,
) -> TimelineModel
    decreases muxs.len() - i,
{
    if i < 0 || i >= muxs.len() {
        (muxs, i)
    } else if !precedes(forward, t, muxs[i].start_ns) {
        scan(forward, muxs, i + 1, t, j, target)
    } else if muxs[i].pore_state != target {
        (muxs, i)
    } else {
        (muxs.update(i, record(muxs[i], j, t)), i)
    }
}

/// One read applied to a timeline.
pub open spec fn scan_timeline(
    forward: bool,
    tl: TimelineModel,
    t: u64,
    j: usize,
    target: PoreState,
) -> TimelineModel {
    scan(forward, tl.0, tl.1, t, j, target)
}

impl PoreMuxStats {
    pub open spec fn model(&self) -> TimelineModel {
        (self.muxs@, self.last_entry as int)
    }

    /// A timeline with the given events and its cursor at the start.
    pub fn new(muxs: Vec<MuxStat>) -> (r: PoreMuxStats)
        ensures
            r.muxs@ == muxs@,
            r.last_entry == 0,
    {
        PoreMuxStats { muxs, last_entry: 0 }
    }

    /// Applies one read (number `j`, started at `t`) to this timeline.
    pub fn advance(&mut self, forward: bool, t: u64, j: usize, target: PoreState)
        ensures
            final(self).model() == scan_timeline(forward, old(self).model(), t, j, target),
    {
        let n = self.muxs.len();
        let mut i = self.last_entry;
        while i < n
            invariant
                n == self.muxs.len(),
                self.last_entry == i,
                scan(forward, self.muxs@, i as int, t, j, target) == scan_timeline(
                    forward,
                    old(self).model(),
                    t,
                    j,
                    target,
                ),
            decreases n - i,
        {
            let e = self.muxs[i];
            let ahead = if forward {
                t < e.start_ns
            } else {
                t > e.start_ns
            };
            if !ahead {
                i = i + 1;
                self.last_entry = i;
            } else if e.pore_state != target {
                return ;
            } else {
                self.muxs[i] = MuxStat { read_start_ns: t, read_idx: Some(j), ..e };
                return ;
            }
        }
    }
}

} // verus!
