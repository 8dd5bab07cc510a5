use vstd::prelude::*;

use crate::parse::{parse_seconds_ns, parse_unsigned, seconds_ns, unsigned_value};
use crate::matcher::no_matches;
use crate::store::{add_event, PoreMuxMap};
use crate::timeline::{MuxStat, TimelineModel};
use crate::types::PoreState;

verus! {

/// Column of the channel number in a scan-table row.
pub const CHANNEL_COL: usize = 0;

/// Column of the pore (mux position).
pub const PORE_COL: usize = 1;

/// Column of the pore-state label.
pub const STATE_COL: usize = 26;

/// Column of the scan's start time, in decimal seconds.
pub const START_COL: usize = 36;

/// Why a scan table could not be loaded.
#[derive(PartialEq, Eq, Structural, Clone, Copy, Debug)]
pub enum ScanError {
    /// Row `row` of the table (the header is row 0) lacks a column or
    /// holds a number that does not parse.
    MalformedRow { row: usize },
}

/// The state that a scan label stands for: only `single_pore` is alive.
pub open spec fn label_state(label: Seq<char>) -> PoreState {
    if label == "single_pore"@ {
        PoreState::Alive
    } else {
        PoreState::Dead
    }
}

/// The key and the event that a data row of the scan table holds, where
/// it is well formed.
pub open spec fn row_event(row: Seq<String>) -> Option<((u32, u8), MuxStat)> {
    if row.len() > START_COL {
        match (
            seconds_ns(row[START_COL as int]@),
            unsigned_value(row[CHANNEL_COL as int]@, u32::MAX as int),
            unsigned_value(row[PORE_COL as int]@, u8::MAX as int),
        ) {
            (Some(t), Some(c), Some(p)) => Some(
                (
                    (c as u32, p as u8),
                    MuxStat {
                        start_ns: t as u64,
                        read_start_ns: 0,
                        read_idx: None,
                        pore_state: label_state(row[STATE_COL as int]@),
                    },
                ),
            ),
            _ => None,
        }
    } else {
        None
    }
}

/// The store built from the data rows before row `k` (row 0, the header,
/// is skipped), each row's event appended to its key's timeline.
pub open spec fn table_store(rows: Seq<Vec<String>>, k: nat) -> (
    Seq<(u32, u8)>,
    Seq<TimelineModel>,
)
    decreases k,
{
    if k <= 1 {
        (seq![], seq![])
    } else {
        let prev = table_store(rows, (k - 1) as nat);
        match row_event(rows[k - 1]@) {
            Some((key, ev)) => add_event(prev.0, prev.1, key, ev),
            None => prev,
        }
    }
}

/// Builds the Timeline Store from the rows of a scan table, each row
/// split into its columns; the first row is the header.
///
/// Fails on the first data row that lacks a column or holds a channel,
/// pore or start time that does not parse.
pub fn gen_pore_mux_map(rows: &Vec<Vec<String>>) -> (r: Result<PoreMuxMap, ScanError>)
    ensures
        match r {
            Ok(m) => {
                &&& m.wf()
                &&& no_matches(m.timelines_view())
                &&& forall|i: int| 1 <= i < rows@.len() ==> (#[trigger] row_event(rows@[i]@)) is Some
                &&& (m.keys_view(), m.timelines_view()) == table_store(rows@, rows@.len() as nat)
            },
            Err(ScanError::MalformedRow { row }) => {
                &&& 1 <= row < rows@.len()
                &&& row_event(rows@[row as int]@) is None
                &&& forall|i: int| 1 <= i < row ==> (#[trigger] row_event(rows@[i]@)) is Some
            },
        },
{
    let single = String::from_str("single_pore");
    let mut store = PoreMuxMap::new();
    let n = rows.len();
    if n == 0 {
        return Ok(store);
    }
    let mut i: usize = 1;
    while i < n
        invariant
            1 <= i <= n == rows@.len(),
            single@ == "single_pore"@,
            store.wf(),
            no_matches(store.timelines_view()),
            (store.keys_view(), store.timelines_view()) == table_store(rows@, i as nat),
            forall|k: int| 1 <= k < i ==> (#[trigger] row_event(rows@[k]@)) is Some,
        decreases n - i,
    {
        let row = &rows[i];
        if row.len() <= START_COL {
            return Err(ScanError::MalformedRow { row: i });
        }
        let t = parse_seconds_ns(row[START_COL].as_str());
        let c = parse_unsigned(row[CHANNEL_COL].as_str(), u32::MAX as u64);
        let p = parse_unsigned(row[PORE_COL].as_str(), u8::MAX as u64);
        match (t, c, p) {
            (Some(t), Some(c), Some(p)) => {
                let state = if row[STATE_COL] == single {
                    PoreState::Alive
                } else {
                    PoreState::Dead
                };
                let ev = MuxStat::new(t, state);
                assert(row_event(rows@[i as int]@) == Some(((c as u32, p as u8), ev)));
                let ghost before = store.timelines_view();
                proof {
                    store.lemma_keys_distinct();
                }
                let ghost keys = store.keys_view();
                let ghost pos = crate::store::key_pos(keys, (c as u32, p as u8));
                store.add_event((c as u32, p as u8), ev);
                proof {
                    let after = store.timelines_view();
                    assert(after == add_event(keys, before, (c as u32, p as u8), ev).1);
                    assert forall|a: int, m: int|
                        0 <= a < after.len() && 0 <= m < after[a].0.len() implies (#[trigger] after[a].0[m]).read_idx is None by {
                        if pos >= 0 {
                            assert(0 <= pos < before.len());
                            if a == pos && m == before[a].0.len() {
                                assert(after[a].0[m] == ev);
                            } else {
                                assert(after[a].0[m] == before[a].0[m]);
                            }
                        } else if a < before.len() {
                            assert(after[a] == before[a]);
                        } else {
                            assert(after[a].0[m] == ev);
                        }
                    }
                }
            },
            _ => {
                return Err(ScanError::MalformedRow { row: i });
            },
        }
        i = i + 1;
    }
    Ok(store)
}

} // verus!
