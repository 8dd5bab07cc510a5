use vstd::prelude::*;

use crate::matcher::{
    earliest_final, get_first_read, get_last_read, ids_of, latest_final, matched_all, views,
};
use crate::reads::{converted, gen_read_timestamps, read_of, stably_sorted_as, RawRead, RecordError};
use crate::scan::{gen_pore_mux_map, row_event, table_store, ScanError};
use crate::types::{PoreState, ReadMode, ReadTimestamp};

verus! {

/// Why a run could not select its reads.
#[derive(PartialEq, Eq, Structural, Clone, Copy, Debug)]
pub enum RunError {
    Scan(ScanError),
    Record(RecordError),
}

/// Every data row of the scan table is well formed.
pub open spec fn table_ok(rows: Seq<Vec<String>>) -> bool {
    forall|i: int| 1 <= i < rows.len() ==> (#[trigger] row_event(rows[i]@)) is Some
}

/// Every record gives a read start.
pub open spec fn records_ok(records: Seq<RawRead>) -> bool {
    forall|k: int| 0 <= k < records.len() ==> (#[trigger] read_of(records[k], k as usize)) is Ok
}

/// The read numbers that the pass of `mode` matches.
pub open spec fn selected(
    rows: Seq<Vec<String>>,
    reads: Seq<ReadTimestamp>,
    state: PoreState,
    mode: ReadMode,
) -> Seq<usize> {
    let (keys, tls) = table_store(rows, rows.len() as nat);
    match mode {
        ReadMode::Last => matched_all(latest_final(keys, tls, reads, state)),
        ReadMode::First => matched_all(earliest_final(keys, tls, reads, state)),
    }
}

/// The ids of the reads that `read_mode` selects for `pore_state`: the
/// Timeline Store is built from the scan table (its rows split into
/// columns, the first row a header), the read starts from the records and
/// sorted by time, and the pass of `read_mode` is run over both.
///
/// Fails with the scan table's error if it has one, else with the first
/// record that gives no read start.
pub fn select_reads(
    rows: &Vec<Vec<String>>,
    records: &Vec<RawRead>,
    pore_state: PoreState,
    read_mode: ReadMode,
) -> (r: Result<Vec<String>, RunError>)
    ensures
        match r {
            Ok(ids) => {
                &&& table_ok(rows@)
                &&& records_ok(records@)
                &&& exists|reads: Seq<ReadTimestamp>, perm: Seq<int>|
                    #[trigger] stably_sorted_as(reads, converted(records@), perm) && views(ids@)
                        == ids_of(selected(rows@, reads, pore_state, read_mode), reads)
            },
            Err(RunError::Scan(ScanError::MalformedRow { row })) => {
                &&& 1 <= row < rows@.len()
                &&& row_event(rows@[row as int]@) is None
                &&& forall|i: int| 1 <= i < row ==> (#[trigger] row_event(rows@[i]@)) is Some
            },
            Err(RunError::Record(e)) => {
                &&& table_ok(rows@)
                &&& exists|k: int|
                    0 <= k < records@.len() && read_of(records@[k], k as usize) == Err::<
                        ReadTimestamp,
                        RecordError,
                    >(e) && forall|m: int|
                        0 <= m < k ==> (#[trigger] read_of(records@[m], m as usize)) is Ok
            },
        },
{
    let store = match gen_pore_mux_map(rows) {
        Ok(m) => m,
        Err(e) => {
            return Err(RunError::Scan(e));
        },
    };
    let reads = match gen_read_timestamps(records) {
        Ok(v) => v,
        Err(e) => {
            return Err(RunError::Record(e));
        },
    };
    let ghost perm = choose|perm: Seq<int>| stably_sorted_as(reads@, converted(records@), perm);
    let ids = match read_mode {
        ReadMode::First => get_first_read(store, &reads, pore_state),
        ReadMode::Last => get_last_read(store, &reads, pore_state),
    };
    let r: Result<Vec<String>, RunError> = Ok(ids);
    assert(stably_sorted_as(reads@, converted(records@), perm));
    r
}

} // verus!
