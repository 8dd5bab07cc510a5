use vstd::prelude::*;

use crate::store::{key_pos, reversed, PoreMuxMap};
use crate::timeline::{record, scan, scan_timeline, MuxStat, TimelineModel};
use crate::types::{read_key, PoreState, ReadTimestamp};

verus! {

/// The read taken at step `k` of a pass over `n` reads: ascending order
/// for a forward pass, descending otherwise.
pub open spec fn pass_read(forward: bool, n: int, k: int) -> int {
    if forward {
        k
    } else {
        n - 1 - k
    }
}

/// The timelines after read number `j` is applied: the read goes to the
/// timeline of its own key, and a read whose key has no timeline changes
/// nothing.
pub open spec fn apply_read(
    forward: bool,
    keys: Seq<(u32, u8)>,
    tls: Seq<TimelineModel>,
    reads: Seq<ReadTimestamp>,
    j: int,
    target: PoreState,
) -> Seq<TimelineModel> {
    let p = key_pos(keys, read_key(reads[j]));
    if p >= 0 {
        tls.update(p, scan_timeline(forward, tls[p], reads[j].start_ns, j as usize, target))
    } else {
        tls
    }
}

/// The timelines after the first `k` steps of a pass.
pub open spec fn pass(
    forward: bool,
    keys: Seq<(u32, u8)>,
    tls: Seq<TimelineModel>,
    reads: Seq<ReadTimestamp>,
    target: PoreState,
    k: nat,
) -> Seq<TimelineModel>
    decreases k,
{
    if k == 0 {
        tls
    } else {
        apply_read(
            forward,
            keys,
            pass(forward, keys, tls, reads, target, (k - 1) as nat),
            reads,
            pass_read(forward, reads.len() as int, k - 1),
            target,
        )
    }
}

/// The read numbers recorded in `muxs`, in event order.
pub open spec fn matched_in(muxs: Seq<MuxStat>) -> Seq<usize>
    decreases muxs.len(),
{
    if muxs.len() == 0 {
        seq![]
    } else {
        matched_in(muxs.drop_last()) + match muxs.last().read_idx {
            Some(j) => seq![j],
            None => seq![],
        }
    }
}

/// The read numbers recorded in all timelines: timeline by timeline in
/// store order, then in event order.
pub open spec fn matched_all(tls: Seq<TimelineModel>) -> Seq<usize>
    decreases tls.len(),
{
    if tls.len() == 0 {
        seq![]
    } else {
        matched_all(tls.drop_last()) + matched_in(tls.last().0)
    }
}

/// Every match recorded in `tls` names one of `n` reads.
pub open spec fn matches_within(tls: Seq<TimelineModel>, n: int) -> bool {
    forall|i: int, m: int|
        0 <= i < tls.len() && 0 <= m < tls[i].0.len() && (#[trigger] tls[i].0[m]).read_idx is Some
            ==> tls[i].0[m].read_idx->0 < n
}

/// The timelines after LatestMatch: reads in ascending time, each kept by
/// the first event still ahead of it.
pub open spec fn latest_final(
    keys: Seq<(u32, u8)>,
    tls: Seq<TimelineModel>,
    reads: Seq<ReadTimestamp>,
    target: PoreState,
) -> Seq<TimelineModel> {
    pass(true, keys, tls, reads, target, reads.len() as nat)
}

/// The timelines after EarliestMatch: LatestMatch run over every timeline
/// and over the reads in reversed time, with the events put back in
/// forward order afterwards.
pub open spec fn earliest_final(
    keys: Seq<(u32, u8)>,
    tls: Seq<TimelineModel>,
    reads: Seq<ReadTimestamp>,
    target: PoreState,
) -> Seq<TimelineModel> {
    pass(
        false,
        keys,
        tls.map_values(|tl: TimelineModel| reversed(tl)),
        reads,
        target,
        reads.len() as nat,
    ).map_values(|tl: TimelineModel| reversed(tl))
}

/// The read ids of the read numbers `idx`.
pub open spec fn ids_of(idx: Seq<usize>, reads: Seq<ReadTimestamp>) -> Seq<Seq<char>> {
    idx.map_values(|j: usize| reads[j as int].read_id@)
}

/// The views of a sequence of strings.
pub open spec fn views(v: Seq<String>) -> Seq<Seq<char>> {
    v.map_values(|s: String| s@)
}

/// A scan keeps every event's time and state, and changes a recorded match
/// only to the read it scans.
proof fn lemma_scan_shape(
    forward: bool,
    muxs: Seq<MuxStat>,
    i: int,
    t: u64,
    j: usize,
    target: PoreState,
)
    ensures
        ({
            let r = scan(forward, muxs, i, t, j, target).0;
            &&& r.len() == muxs.len()
            &&& forall|m: int|
                0 <= m < r.len() ==> {
                    &&& (#[trigger] r[m]).start_ns == muxs[m].start_ns
                    &&& r[m].pore_state == muxs[m].pore_state
                    &&& (r[m].read_idx == muxs[m].read_idx || r[m].read_idx == Some(j))
                }
        }),
    decreases muxs.len() - i,
{
    if i >= 0 && i < muxs.len() && !crate::timeline::precedes(forward, t, muxs[i].start_ns) {
        lemma_scan_shape(forward, muxs, i + 1, t, j, target);
    }
}

/// Runs one pass over all reads, in the order of `forward`.
fn run_pass(store: &mut PoreMuxMap, reads: &Vec<ReadTimestamp>, target: PoreState, forward: bool)
    requires
        old(store).wf(),
        matches_within(old(store).timelines_view(), reads@.len() as int),
    ensures
        final(store).wf(),
        final(store).keys_view() == old(store).keys_view(),
        final(store).timelines_view() == pass(
            forward,
            old(store).keys_view(),
            old(store).timelines_view(),
            reads@,
            target,
            reads@.len() as nat,
        ),
        matches_within(final(store).timelines_view(), reads@.len() as int),
{
    let ghost keys = store.keys_view();
    let ghost tls0 = store.timelines_view();
    let n = reads.len();
    let mut k: usize = 0;
    while k < n
        invariant
            n == reads@.len(),
            k <= n,
            store.wf(),
            store.keys_view() == keys,
            store.timelines_view() == pass(forward, keys, tls0, reads@, target, k as nat),
            matches_within(store.timelines_view(), n as int),
        decreases n - k,
    {
        let j: usize = if forward {
            k
        } else {
            n - 1 - k
        };
        let r = &reads[j];
        let ghost before = store.timelines_view();
        proof {
            store.lemma_keys_distinct();
        }
        match store.find((r.channel, r.pore)) {
            Some(i) => {
                store.advance_at(i, forward, r.start_ns, j, target);
                proof {
                    let tl = before[i as int];
                    lemma_scan_shape(forward, tl.0, tl.1, r.start_ns, j, target);
                    let after = store.timelines_view();
                    assert(forall|a: int, m: int|
                        0 <= a < after.len() && 0 <= m < after[a].0.len()
                            && (#[trigger] after[a].0[m]).read_idx is Some ==> after[a].0[m].read_idx->0
                        < n);
                }
            },
            None => {},
        }
        k = k + 1;
    }
}

/// The read ids of all matches in the store, in store order and then in
/// event order.
fn collect_matches(store: &PoreMuxMap, reads: &Vec<ReadTimestamp>) -> (r: Vec<String>)
    requires
        store.wf(),
        matches_within(store.timelines_view(), reads@.len() as int),
    ensures
        views(r@) == ids_of(matched_all(store.timelines_view()), reads@),
{
    let ghost tls = store.timelines_view();
    let mut r: Vec<String> = Vec::new();
    let nk = store.len();
    proof {
        store.lemma_keys_distinct();
    }
    let mut i: usize = 0;
    while i < nk
        invariant
            store.wf(),
            nk == tls.len(),
            nk == store.keys_view().len(),
            tls == store.timelines_view(),
            matches_within(tls, reads@.len() as int),
            i <= nk,
            views(r@) == ids_of(matched_all(tls.take(i as int)), reads@),
        decreases nk - i,
    {
        let tl = store.timeline(i);
        let ne = tl.muxs.len();
        let ghost muxs = tl.muxs@;
        let ghost base = matched_all(tls.take(i as int));
        let mut m: usize = 0;
        while m < ne
            invariant
                ne == muxs.len(),
                muxs == tl.muxs@,
                muxs == tls[i as int].0,
                0 <= i < tls.len(),
                matches_within(tls, reads@.len() as int),
                m <= ne,
                views(r@) == ids_of(base + matched_in(muxs.take(m as int)), reads@),
            decreases ne - m,
        {
            proof {
                assert(muxs.take(m as int + 1).drop_last() =~= muxs.take(m as int));
                assert(muxs.take(m as int + 1).last() == muxs[m as int]);
            }
            match tl.muxs[m].read_idx {
                Some(j) => {
                    assert(tls[i as int].0[m as int].read_idx is Some);
                    let id = reads[j].read_id.clone();
                    let ghost prev = r@;
                    r.push(id);
                    proof {
                        assert(views(r@) =~= views(prev).push(id@));
                        assert(base + matched_in(muxs.take(m as int + 1)) =~= (base + matched_in(
                            muxs.take(m as int),
                        )).push(j));
                        assert(ids_of(base + matched_in(muxs.take(m as int + 1)), reads@) =~= ids_of(
                            base + matched_in(muxs.take(m as int)),
                            reads@,
                        ).push(reads@[j as int].read_id@));
                    }
                },
                None => {
                    assert(base + matched_in(muxs.take(m as int + 1)) =~= base + matched_in(
                        muxs.take(m as int),
                    ));
                },
            }
            m = m + 1;
        }
        proof {
            assert(muxs.take(ne as int) =~= muxs);
            assert(tls.take(i as int + 1).drop_last() =~= tls.take(i as int));
            assert(tls.take(i as int + 1).last() == tls[i as int]);
        }
        i = i + 1;
    }
    assert(tls.take(nk as int) =~= tls);
    r
}


proof fn lemma_reversed_within(tls: Seq<TimelineModel>, n: int)
    requires
        matches_within(tls, n),
    ensures
        matches_within(tls.map_values(|tl: TimelineModel| reversed(tl)), n),
{
    let rt = tls.map_values(|tl: TimelineModel| reversed(tl));
    assert forall|i: int, m: int|
        0 <= i < rt.len() && 0 <= m < rt[i].0.len() && (#[trigger] rt[i].0[m]).read_idx is Some
            implies rt[i].0[m].read_idx->0 < n by {
        let len = tls[i].0.len();
        assert(rt[i].0[m] == tls[i].0[len - 1 - m]);
    }
}

/// LatestMatch: for each event whose state is `pore_state`, the last read
/// of its key that comes before it while the cursor is still on it.
///
/// The reads are taken in the order given (ascending time is the caller's
/// part); the result lists the matched read ids timeline by timeline in
/// store order, and by event order within a timeline.
pub fn get_last_read(
    pore_mux_map: PoreMuxMap,
    read_timestamps: &Vec<ReadTimestamp>,
    pore_state: PoreState,
) -> (r: Vec<String>)
    requires
        pore_mux_map.wf(),
        matches_within(pore_mux_map.timelines_view(), read_timestamps@.len() as int),
    ensures
        views(r@) == ids_of(
            matched_all(
                latest_final(
                    pore_mux_map.keys_view(),
                    pore_mux_map.timelines_view(),
                    read_timestamps@,
                    pore_state,
                ),
            ),
            read_timestamps@,
        ),
{
    let mut store = pore_mux_map;
    run_pass(&mut store, read_timestamps, pore_state, true);
    collect_matches(&store, read_timestamps)
}

/// EarliestMatch: for each event whose state is `pore_state`, the first
/// read of its key that comes after it while the cursor is still on it.
///
/// It is LatestMatch run backwards in time: over the reads from last to
/// first and over each timeline's events from last to first, with the
/// comparison mirrored. The result is listed as for `get_last_read`.
pub fn get_first_read(
    pore_mux_map: PoreMuxMap,
    read_timestamps: &Vec<ReadTimestamp>,
    pore_state: PoreState,
) -> (r: Vec<String>)
    requires
        pore_mux_map.wf(),
        matches_within(pore_mux_map.timelines_view(), read_timestamps@.len() as int),
    ensures
        views(r@) == ids_of(
            matched_all(
                earliest_final(
                    pore_mux_map.keys_view(),
                    pore_mux_map.timelines_view(),
                    read_timestamps@,
                    pore_state,
                ),
            ),
            read_timestamps@,
        ),
{
    let mut store = pore_mux_map;
    let n = read_timestamps.len();
    proof {
        lemma_reversed_within(store.timelines_view(), n as int);
    }
    store.reverse_events();
    run_pass(&mut store, read_timestamps, pore_state, false);
    proof {
        lemma_reversed_within(store.timelines_view(), n as int);
    }
    store.reverse_events();
    collect_matches(&store, read_timestamps)
}


/// No event of `tls` holds a match.
pub open spec fn no_matches(tls: Seq<TimelineModel>) -> bool {
    forall|i: int, m: int|
        0 <= i < tls.len() && 0 <= m < tls[i].0.len() ==> (#[trigger] tls[i].0[m]).read_idx is None
}

/// The timelines with every cursor back at the start and every match
/// cleared: the same events, as a new matching pass wants them.
pub open spec fn fresh(tls: Seq<TimelineModel>) -> Seq<TimelineModel> {
    tls.map_values(
        |tl: TimelineModel|
            (tl.0.map_values(|m: MuxStat| MuxStat { read_start_ns: 0, read_idx: None, ..m }), 0int),
    )
}

/// Read number `j` is one of `reads` and belongs to the key at position `i`.
pub open spec fn own_read(keys: Seq<(u32, u8)>, reads: Seq<ReadTimestamp>, i: int, j: usize) -> bool {
    &&& j < reads.len()
    &&& read_key(reads[j as int]) == keys[i]
}

/// `after` has the events of `before`, and every match that differs names
/// a read of the timeline's own key.
pub open spec fn same_events(
    keys: Seq<(u32, u8)>,
    reads: Seq<ReadTimestamp>,
    before: Seq<TimelineModel>,
    after: Seq<TimelineModel>,
) -> bool {
    &&& after.len() == before.len()
    &&& forall|i: int| 0 <= i < after.len() ==> (#[trigger] after[i]).0.len() == before[i].0.len()
    &&& forall|i: int, m: int|
        0 <= i < after.len() && 0 <= m < after[i].0.len() ==> {
            &&& (#[trigger] after[i].0[m]).start_ns == before[i].0[m].start_ns
            &&& after[i].0[m].pore_state == before[i].0[m].pore_state
            &&& (after[i].0[m].read_idx == before[i].0[m].read_idx || (after[i].0[m].read_idx is Some
                && own_read(keys, reads, i, after[i].0[m].read_idx->0)))
        }
}

proof fn lemma_pass_same_events(
    forward: bool,
    keys: Seq<(u32, u8)>,
    tls: Seq<TimelineModel>,
    reads: Seq<ReadTimestamp>,
    target: PoreState,
    k: nat,
)
    requires
        k <= reads.len() <= usize::MAX,
        keys.len() == tls.len(),
    ensures
        same_events(keys, reads, tls, pass(forward, keys, tls, reads, target, k)),
    decreases k,
{
    if k > 0 {
        lemma_pass_same_events(forward, keys, tls, reads, target, (k - 1) as nat);
        let prev = pass(forward, keys, tls, reads, target, (k - 1) as nat);
        let cur = pass(forward, keys, tls, reads, target, k);
        let j = pass_read(forward, reads.len() as int, k - 1);
        let p = key_pos(keys, read_key(reads[j]));
        assert(0 <= j < reads.len());
        if p >= 0 {
            assert(keys[p] == read_key(reads[j]));
            lemma_scan_shape(forward, prev[p].0, prev[p].1, reads[j].start_ns, j as usize, target);
            assert forall|i: int, m: int| 0 <= i < cur.len() && 0 <= m < cur[i].0.len() implies {
                &&& (#[trigger] cur[i].0[m]).start_ns == tls[i].0[m].start_ns
                &&& cur[i].0[m].pore_state == tls[i].0[m].pore_state
                &&& (cur[i].0[m].read_idx == tls[i].0[m].read_idx || (cur[i].0[m].read_idx is Some
                    && own_read(keys, reads, i, cur[i].0[m].read_idx->0)))
            } by {
                if i == p {
                    let sc = scan_timeline(forward, prev[p], reads[j].start_ns, j as usize, target);
                    assert(cur[p] == sc);
                    if cur[i].0[m].read_idx != prev[i].0[m].read_idx {
                        assert(cur[i].0[m].read_idx == Some(j as usize));
                        assert(own_read(keys, reads, i, j as usize));
                    }
                }
            }
            assert(forall|i: int| 0 <= i < cur.len() ==> (#[trigger] cur[i]).0.len() == tls[i].0.len());
        }
    }
}

proof fn lemma_matched_in_member(muxs: Seq<MuxStat>, x: usize)
    requires
        matched_in(muxs).contains(x),
    ensures
        exists|m: int| 0 <= m < muxs.len() && (#[trigger] muxs[m]).read_idx == Some(x),
    decreases muxs.len(),
{
    let front = muxs.drop_last();
    let last: Seq<usize> = match muxs.last().read_idx {
        Some(j) => seq![j],
        None => seq![],
    };
    let k = choose|k: int| 0 <= k < matched_in(muxs).len() && matched_in(muxs)[k] == x;
    if k < matched_in(front).len() {
        assert(matched_in(front)[k] == x);
        lemma_matched_in_member(front, x);
        let m = choose|m: int| 0 <= m < front.len() && (#[trigger] front[m]).read_idx == Some(x);
        assert(muxs[m] == front[m]);
    } else {
        assert(last[k - matched_in(front).len()] == x);
        assert(muxs[muxs.len() - 1].read_idx == Some(x));
    }
}

proof fn lemma_matched_all_member(tls: Seq<TimelineModel>, x: usize)
    requires
        matched_all(tls).contains(x),
    ensures
        exists|i: int, m: int|
            0 <= i < tls.len() && 0 <= m < tls[i].0.len() && (#[trigger] tls[i].0[m]).read_idx
                == Some(x),
    decreases tls.len(),
{
    let front = tls.drop_last();
    let k = choose|k: int| 0 <= k < matched_all(tls).len() && matched_all(tls)[k] == x;
    if k < matched_all(front).len() {
        assert(matched_all(front)[k] == x);
        lemma_matched_all_member(front, x);
        let (i, m) = choose|i: int, m: int|
            0 <= i < front.len() && 0 <= m < front[i].0.len() && (#[trigger] front[i].0[m]).read_idx
                == Some(x);
        assert(tls[i] == front[i]);
    } else {
        assert(matched_in(tls.last().0)[k - matched_all(front).len()] == x);
        lemma_matched_in_member(tls.last().0, x);
        let m = choose|m: int|
            0 <= m < tls.last().0.len() && (#[trigger] tls.last().0[m]).read_idx == Some(x);
        assert(tls[tls.len() - 1].0[m].read_idx == Some(x));
    }
}

/// A read whose key has no timeline, or a timeline without events, is
/// matched by neither LatestMatch nor EarliestMatch.
pub proof fn lemma_no_events_no_match(
    keys: Seq<(u32, u8)>,
    tls: Seq<TimelineModel>,
    reads: Seq<ReadTimestamp>,
    target: PoreState,
    j: usize,
)
    requires
        keys.no_duplicates(),
        keys.len() == tls.len(),
        no_matches(tls),
        j < reads.len() <= usize::MAX,
        key_pos(keys, read_key(reads[j as int])) == -1 || tls[key_pos(
            keys,
            read_key(reads[j as int]),
        )].0.len() == 0,
    ensures
        !matched_all(latest_final(keys, tls, reads, target)).contains(j),
        !matched_all(earliest_final(keys, tls, reads, target)).contains(j),
{
    let key = read_key(reads[j as int]);
    let n = reads.len() as nat;
    let lf = latest_final(keys, tls, reads, target);
    lemma_pass_same_events(true, keys, tls, reads, target, n);
    if matched_all(lf).contains(j) {
        lemma_matched_all_member(lf, j);
        let (i, m) = choose|i: int, m: int|
            0 <= i < lf.len() && 0 <= m < lf[i].0.len() && (#[trigger] lf[i].0[m]).read_idx == Some(j);
        assert(tls[i].0[m].read_idx is None);
        assert(keys[i] == key);
        assert(key_pos(keys, key) == i);
    }
    let rt = tls.map_values(|tl: TimelineModel| reversed(tl));
    let pb = pass(false, keys, rt, reads, target, n);
    let ef = earliest_final(keys, tls, reads, target);
    lemma_pass_same_events(false, keys, rt, reads, target, n);
    if matched_all(ef).contains(j) {
        lemma_matched_all_member(ef, j);
        let (i, m) = choose|i: int, m: int|
            0 <= i < ef.len() && 0 <= m < ef[i].0.len() && (#[trigger] ef[i].0[m]).read_idx == Some(j);
        let len = pb[i].0.len();
        assert(ef[i].0[m] == pb[i].0[len - 1 - m]);
        assert(rt[i].0[len - 1 - m] == tls[i].0[m]);
        assert(tls[i].0[m].read_idx is None);
        assert(keys[i] == key);
        assert(key_pos(keys, key) == i);
    }
}

/// A pass changes only cursors and matches: the timelines it leaves,
/// made fresh again, are the timelines it started from made fresh. So a
/// second pass over a fresh copy of the store gives the result of the
/// first pass over a fresh store.
pub proof fn lemma_rerun_same_result(
    keys: Seq<(u32, u8)>,
    tls: Seq<TimelineModel>,
    reads: Seq<ReadTimestamp>,
    target: PoreState,
)
    requires
        keys.len() == tls.len(),
        reads.len() <= usize::MAX,
    ensures
        fresh(latest_final(keys, tls, reads, target)) == fresh(tls),
        fresh(earliest_final(keys, tls, reads, target)) == fresh(tls),
        matched_all(latest_final(keys, fresh(latest_final(keys, tls, reads, target)), reads, target))
            == matched_all(latest_final(keys, fresh(tls), reads, target)),
        matched_all(
            earliest_final(keys, fresh(earliest_final(keys, tls, reads, target)), reads, target),
        ) == matched_all(earliest_final(keys, fresh(tls), reads, target)),
{
    let n = reads.len() as nat;
    let lf = latest_final(keys, tls, reads, target);
    lemma_pass_same_events(true, keys, tls, reads, target, n);
    assert forall|i: int| 0 <= i < tls.len() implies #[trigger] fresh(lf)[i] == fresh(tls)[i] by {
        assert(fresh(lf)[i].0 =~= fresh(tls)[i].0);
    }
    assert(fresh(lf) =~= fresh(tls));
    let rt = tls.map_values(|tl: TimelineModel| reversed(tl));
    let pb = pass(false, keys, rt, reads, target, n);
    let ef = earliest_final(keys, tls, reads, target);
    lemma_pass_same_events(false, keys, rt, reads, target, n);
    assert forall|i: int| 0 <= i < tls.len() implies #[trigger] fresh(ef)[i] == fresh(tls)[i] by {
        let len = tls[i].0.len();
        assert forall|m: int| 0 <= m < len implies ef[i].0[m].start_ns == tls[i].0[m].start_ns
            && ef[i].0[m].pore_state == tls[i].0[m].pore_state by {
            assert(ef[i].0[m] == pb[i].0[len - 1 - m]);
            assert(rt[i].0[len - 1 - m] == tls[i].0[m]);
        }
        assert(fresh(ef)[i].0 =~= fresh(tls)[i].0);
    }
    assert(fresh(ef) =~= fresh(tls));
}


/// LatestMatch over a single timeline that holds one event of the target
/// state, with one read of that timeline's key: the read is matched exactly
/// when it starts before the event.
pub proof fn lemma_single_event_latest(
    key: (u32, u8),
    event: MuxStat,
    read: ReadTimestamp,
    target: PoreState,
)
    requires
        event.pore_state == target,
        event.read_idx is None,
        read_key(read) == key,
    ensures
        matched_all(latest_final(seq![key], seq![(seq![event], 0int)], seq![read], target)) == if read.start_ns
            < event.start_ns {
            seq![0usize]
        } else {
            seq![]
        },
{
    let keys = seq![key];
    let tls = seq![(seq![event], 0int)];
    let reads = seq![read];
    assert(keys[0] == read_key(reads[0]));
    let p = key_pos(keys, read_key(reads[0]));
    assert(p == 0);
    let fin = latest_final(keys, tls, reads, target);
    assert(fin == pass(true, keys, tls, reads, target, 1));
    assert(pass(true, keys, tls, reads, target, 0) == tls);
    let sc = scan(true, seq![event], 0, read.start_ns, 0, target);
    assert(fin == tls.update(0, sc));
    if read.start_ns < event.start_ns {
        assert(sc.0 == seq![event].update(0, record(event, 0, read.start_ns)));
        assert(sc.0.drop_last() =~= Seq::<MuxStat>::empty());
    } else {
        assert(sc == scan(true, seq![event], 1, read.start_ns, 0, target));
        assert(sc.0 == seq![event]);
        assert(sc.0.drop_last() =~= Seq::<MuxStat>::empty());
    }
    assert(fin.drop_last() =~= Seq::<TimelineModel>::empty());
    assert(matched_all(fin) == matched_all(fin.drop_last()) + matched_in(fin.last().0));
    assert(matched_in(sc.0) == matched_in(sc.0.drop_last()) + match sc.0.last().read_idx {
        Some(j) => seq![j],
        None => seq![],
    });
    assert(matched_in(sc.0) =~= if read.start_ns < event.start_ns {
        seq![0usize]
    } else {
        seq![]
    });
    assert(matched_all(fin) =~= matched_in(sc.0));
}

} // verus!
