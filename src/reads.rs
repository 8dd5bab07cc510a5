use vstd::prelude::*;

use crate::parse::{parse_unsigned, unsigned_value, NANOS_PER_SEC};
use crate::types::ReadTimestamp;

verus! {

/// The fields of one record of the signal archive from which a read's
/// start is made.
#[derive(Clone, Debug)]
pub struct RawRead {
    pub read_id: String,
    /// The `channel_number` field, as text.
    pub channel: String,
    /// The `start_mux` field.
    pub pore: u8,
    /// The `start_time` field: samples from the start of the run.
    pub start_samples: u64,
    /// Samples per second.
    pub sampling_rate: u64,
}

/// Why a record could not give a read start.
#[derive(PartialEq, Eq, Structural, Clone, Copy, Debug)]
pub enum RecordError {
    /// The channel of record `record` is not a `u32`.
    BadChannel { record: usize },
    /// Record `record` has a sampling rate of zero.
    ZeroSamplingRate { record: usize },
    /// The start of record `record` in nanoseconds does not fit in a `u64`.
    StartOutOfRange { record: usize },
}

/// The start of a read in whole nanoseconds: samples divided by the
/// sampling rate, rounded down.
pub open spec fn start_ns_of(samples: int, rate: int) -> int {
    samples * NANOS_PER_SEC / rate
}

/// The read start that a record gives, or the error it fails with
/// (as record number `k`).
pub open spec fn read_of(raw: RawRead, k: usize) -> Result<ReadTimestamp, RecordError> {
    match unsigned_value(raw.channel@, u32::MAX as int) {
        None => Err(RecordError::BadChannel { record: k }),
        Some(c) => if raw.sampling_rate == 0 {
            Err(RecordError::ZeroSamplingRate { record: k })
        } else if start_ns_of(raw.start_samples as int, raw.sampling_rate as int) > u64::MAX {
            Err(RecordError::StartOutOfRange { record: k })
        } else {
            Ok(
                ReadTimestamp {
                    read_id: raw.read_id,
                    start_ns: start_ns_of(raw.start_samples as int, raw.sampling_rate as int) as u64,
                    channel: c as u32,
                    pore: raw.pore,
                },
            )
        },
    }
}

/// The read starts of records that all give one.
pub open spec fn converted(records: Seq<RawRead>) -> Seq<ReadTimestamp> {
    records.map(|k: int, raw: RawRead| read_of(raw, k as usize)->Ok_0)
}

/// Read `i` of `rs` comes before read `k` in the sorted order: it starts
/// earlier, or at the same time and earlier in the input.
pub open spec fn sorts_before(rs: Seq<ReadTimestamp>, i: int, k: int) -> bool {
    rs[i].start_ns < rs[k].start_ns || (rs[i].start_ns == rs[k].start_ns && i < k)
}

/// `v` is `rs` sorted stably by start time: `perm` gives the input position
/// of each output element, in strictly ascending sort order.
pub open spec fn stably_sorted_as(v: Seq<ReadTimestamp>, rs: Seq<ReadTimestamp>, perm: Seq<int>) -> bool {
    &&& v.len() == rs.len() == perm.len()
    &&& forall|a: int| 0 <= a < v.len() ==> 0 <= #[trigger] perm[a] < rs.len() && v[a] == rs[perm[a]]
    &&& forall|a: int, b: int| 0 <= a < b < v.len() ==> sorts_before(rs, #[trigger] perm[a], #[trigger] perm[b])
}

/// Lexicographic order of integer pairs.
pub open spec fn pair_le(a: (u64, usize), b: (u64, usize)) -> bool {
    a.0 < b.0 || (a.0 == b.0 && a.1 <= b.1)
}

/// Relies on `slice::sort_unstable`: it keeps every element and leaves them
/// in ascending order, which for tuples of integers is lexicographic.
#[verifier::external_body]
fn sort_pairs(v: &mut Vec<(u64, usize)>)
    ensures
        final(v)@.to_multiset() == old(v)@.to_multiset(),
        forall|a: int, b: int| 0 <= a < b < final(v)@.len() ==> pair_le(final(v)@[a], final(v)@[b]),
{
    v.sort_unstable();
}

/// A copy of a read start.
fn copy_read(r: &ReadTimestamp) -> (c: ReadTimestamp)
    ensures
        c == *r,
{
    ReadTimestamp::new(r.read_id.clone(), r.start_ns, r.channel, r.pore)
}

/// `rs` stably sorted by start time.
fn sort_by_start(rs: &Vec<ReadTimestamp>) -> (v: Vec<ReadTimestamp>)
    ensures
        exists|perm: Seq<int>| #[trigger] stably_sorted_as(v@, rs@, perm),
{
    broadcast use vstd::seq_lib::group_to_multiset_ensures;

    let n = rs.len();
    let mut keyed: Vec<(u64, usize)> = Vec::new();
    let mut i: usize = 0;
    while i < n
        invariant
            n == rs@.len(),
            i <= n,
            keyed@.len() == i,
            forall|k: int| 0 <= k < i ==> #[trigger] keyed@[k] == (rs@[k].start_ns, k as usize),
        decreases n - i,
    {
        keyed.push((rs[i].start_ns, i));
        i = i + 1;
    }
    let ghost orig = keyed@;
    assert(orig.no_duplicates()) by {
        assert forall|a: int, b: int| 0 <= a < orig.len() && 0 <= b < orig.len() && a != b implies orig[a]
            != orig[b] by {
            assert(orig[a].1 == a && orig[b].1 == b);
        }
    }
    sort_pairs(&mut keyed);
    let ghost sorted = keyed@;
    proof {
        assert(sorted.len() == sorted.to_multiset().len());
        assert(orig.len() == orig.to_multiset().len());
        orig.lemma_multiset_has_no_duplicates();
        sorted.lemma_multiset_has_no_duplicates_conv();
        assert forall|a: int| 0 <= a < sorted.len() implies sorted[a].1 < n && sorted[a] == orig[sorted[a].1 as int] by {
            assert(sorted.to_multiset().count(sorted[a]) > 0);
            assert(orig.contains(sorted[a]));
        }
    }
    let ghost perm = sorted.map_values(|p: (u64, usize)| p.1 as int);
    let mut v: Vec<ReadTimestamp> = Vec::new();
    let mut a: usize = 0;
    while a < n
        invariant
            n == rs@.len() == sorted.len(),
            sorted == keyed@,
            a <= n,
            v@.len() == a,
            perm == sorted.map_values(|p: (u64, usize)| p.1 as int),
            forall|k: int| 0 <= k < n ==> (#[trigger] sorted[k]).1 < n && sorted[k] == orig[sorted[k].1 as int],
            forall|k: int| 0 <= k < n ==> #[trigger] orig[k] == (rs@[k].start_ns, k as usize),
            forall|k: int| 0 <= k < a ==> #[trigger] v@[k] == rs@[perm[k]],
        decreases n - a,
    {
        let j = keyed[a].1;
        assert(orig[j as int] == (rs@[j as int].start_ns, j));
        v.push(copy_read(&rs[j]));
        a = a + 1;
    }
    assert forall|x: int, y: int| 0 <= x < y < n implies sorts_before(rs@, #[trigger] perm[x], #[trigger] perm[y]) by {
        assert(pair_le(sorted[x], sorted[y]));
        assert(sorted[x] != sorted[y]);
        assert(orig[sorted[x].1 as int] == (rs@[perm[x]].start_ns, sorted[x].1));
        assert(orig[sorted[y].1 as int] == (rs@[perm[y]].start_ns, sorted[y].1));
    }
    assert(stably_sorted_as(v@, rs@, perm));
    v
}

/// The read start of one record (record number `k`).
pub fn read_timestamp(raw: &RawRead, k: usize) -> (r: Result<ReadTimestamp, RecordError>)
    ensures
        r == read_of(*raw, k),
{
    match parse_unsigned(raw.channel.as_str(), u32::MAX as u64) {
        None => Err(RecordError::BadChannel { record: k }),
        Some(c) => {
            if raw.sampling_rate == 0 {
                return Err(RecordError::ZeroSamplingRate { record: k });
            }
            let ns: u128 = raw.start_samples as u128 * NANOS_PER_SEC as u128
                / raw.sampling_rate as u128;
            if ns > u64::MAX as u128 {
                return Err(RecordError::StartOutOfRange { record: k });
            }
            Ok(ReadTimestamp::new(raw.read_id.clone(), ns as u64, c as u32, raw.pore))
        },
    }
}

/// The read starts of all records, sorted ascending by time; fails on the
/// first record that gives none.
pub fn gen_read_timestamps(records: &Vec<RawRead>) -> (r: Result<Vec<ReadTimestamp>, RecordError>)
    ensures
        match r {
            Ok(v) => {
                &&& forall|k: int| 0 <= k < records@.len() ==> (#[trigger] read_of(records@[k], k as usize)) is Ok
                &&& exists|perm: Seq<int>| #[trigger] stably_sorted_as(
                    v@,
                    converted(records@),
                    perm,
                )
            },
            Err(e) => exists|k: int|
                0 <= k < records@.len() && read_of(records@[k], k as usize) == Err::<ReadTimestamp, RecordError>(e)
                    && forall|m: int| 0 <= m < k ==> (#[trigger] read_of(records@[m], m as usize)) is Ok,
        },
{
    let ghost conv = converted(records@);
    let n = records.len();
    let mut out: Vec<ReadTimestamp> = Vec::new();
    let mut k: usize = 0;
    while k < n
        invariant
            n == records@.len(),
            k <= n,
            out@ == conv.take(k as int),
            forall|m: int| 0 <= m < k ==> (#[trigger] read_of(records@[m], m as usize)) is Ok,
            conv == converted(records@),
        decreases n - k,
    {
        match read_timestamp(&records[k], k) {
            Ok(t) => {
                out.push(t);
                assert(out@ =~= conv.take(k as int + 1));
            },
            Err(e) => {
                return Err(e);
            },
        }
        k = k + 1;
    }
    assert(conv.take(n as int) =~= conv);
    let v = sort_by_start(&out);
    assert(out@ == conv);
    let ghost perm = choose|perm: Seq<int>| stably_sorted_as(v@, out@, perm);
    let r: Result<Vec<ReadTimestamp>, RecordError> = Ok(v);
    assert(stably_sorted_as(r->Ok_0@, converted(records@), perm));
    r
}

} // verus!
