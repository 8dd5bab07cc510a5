use vstd::prelude::*;

verus! {

/// Electrical state recorded by a mux scan for one pore.
#[derive(PartialEq, Eq, Structural, Clone, Copy, Debug)]
pub enum PoreState {
    /// Anything but a stably single-occupied pore.
    Dead,
    /// A stably single-occupied pore.
    Alive,
}

/// Which read of an interval a matching pass keeps.
#[derive(PartialEq, Eq, Structural, Clone, Copy, Debug)]
pub enum ReadMode {
    /// The earliest read after each state-change event.
    First,
    /// The latest read before each state-change event.
    Last,
}

/// Which channels the parity filter keeps.
#[derive(PartialEq, Eq, Structural, Clone, Copy, Debug)]
pub enum FilterMode {
    Odd,
    Even,
}

/// The start of one sequencing read.
///
/// Times are whole nanoseconds from the start of the run.
#[derive(Clone, Debug)]
pub struct ReadTimestamp {
    pub read_id: String,
    pub start_ns: u64,
    pub channel: u32,
    pub pore: u8,
}

impl ReadTimestamp {
    pub fn new(read_id: String, start_ns: u64, channel: u32, pore: u8) -> (r: ReadTimestamp)
        ensures
            r.read_id == read_id,
            r.start_ns == start_ns,
            r.channel == channel,
            r.pore == pore,
    {
        ReadTimestamp { read_id, start_ns, channel, pore }
    }
}

/// The timeline key of a read: its channel and its mux position.
pub open spec fn read_key(r: ReadTimestamp) -> (u32, u8) {
    (r.channel, r.pore)
}

} // verus!
