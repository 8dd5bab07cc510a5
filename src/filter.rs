use vstd::prelude::*;

use crate::matcher::views;
use crate::parse::{parse_unsigned, unsigned_value};
use crate::types::FilterMode;

verus! {

/// Why the parity filter failed.
#[derive(PartialEq, Eq, Structural, Clone, Copy, Debug)]
pub enum FilterError {
    /// The read at position `index` is not in the signal archive.
    UnknownReadId { index: usize },
    /// The channel of the read at position `index` is not a `u32`.
    BadChannel { index: usize },
}

/// A read id with the channel field that a lookup by that id found, as
/// text, or `None` where the archive holds no such read.
pub type ChannelLookup = (String, Option<String>);

/// The channel number of a lookup, where it was found and parses.
pub open spec fn channel_of(l: ChannelLookup) -> Option<int> {
    match l.1 {
        Some(c) => unsigned_value(c@, u32::MAX as int),
        None => None,
    }
}

/// Whether `mode` keeps a read on channel `ch`.
pub open spec fn keeps(mode: FilterMode, ch: int) -> bool {
    match mode {
        FilterMode::Odd => ch % 2 == 1,
        FilterMode::Even => ch % 2 == 0,
    }
}

/// The ids of the reads that `mode` keeps, in input order.
pub open spec fn kept(ls: Seq<ChannelLookup>, mode: FilterMode) -> Seq<Seq<char>>
    decreases ls.len(),
{
    if ls.len() == 0 {
        seq![]
    } else {
        kept(ls.drop_last(), mode) + if keeps(mode, channel_of(ls.last())->0) {
            seq![ls.last().0@]
        } else {
            seq![]
        }
    }
}

/// The ids of all lookups, in input order.
pub open spec fn ids(ls: Seq<ChannelLookup>) -> Seq<Seq<char>> {
    ls.map_values(|l: ChannelLookup| l.0@)
}

/// The error of the lookup at position `k`, if it has one.
pub open spec fn lookup_error(l: ChannelLookup, k: usize) -> Option<FilterError> {
    match l.1 {
        None => Some(FilterError::UnknownReadId { index: k }),
        Some(c) => if unsigned_value(c@, u32::MAX as int) is None {
            Some(FilterError::BadChannel { index: k })
        } else {
            None
        },
    }
}

/// Keeps the read ids whose channel has the parity of `filter_mode`, in
/// input order; fails on the first read that was not found or whose
/// channel does not parse.
pub fn filter_reads(lookups: &Vec<ChannelLookup>, filter_mode: FilterMode) -> (r: Result<
    Vec<String>,
    FilterError,
>)
    ensures
        match r {
            Ok(v) => {
                &&& forall|k: int| 0 <= k < lookups@.len() ==> (#[trigger] channel_of(lookups@[k])) is Some
                &&& views(v@) == kept(lookups@, filter_mode)
            },
            Err(e) => exists|k: int|
                0 <= k < lookups@.len() && lookup_error(lookups@[k], k as usize) == Some(e)
                    && forall|m: int| 0 <= m < k ==> (#[trigger] channel_of(lookups@[m])) is Some,
        },
{
    let n = lookups.len();
    let mut out: Vec<String> = Vec::new();
    let mut k: usize = 0;
    while k < n
        invariant
            n == lookups@.len(),
            k <= n,
            forall|m: int| 0 <= m < k ==> (#[trigger] channel_of(lookups@[m])) is Some,
            views(out@) == kept(lookups@.take(k as int), filter_mode),
        decreases n - k,
    {
        let l = &lookups[k];
        proof {
            assert(lookups@.take(k as int + 1).drop_last() =~= lookups@.take(k as int));
            assert(lookups@.take(k as int + 1).last() == lookups@[k as int]);
        }
        match &l.1 {
            None => {
                assert(lookup_error(lookups@[k as int], k) == Some(FilterError::UnknownReadId { index: k }));
                return Err(FilterError::UnknownReadId { index: k });
            },
            Some(c) => {
                match parse_unsigned(c.as_str(), u32::MAX as u64) {
                    None => {
                        assert(lookup_error(lookups@[k as int], k) == Some(FilterError::BadChannel { index: k }));
                        return Err(FilterError::BadChannel { index: k });
                    },
                    Some(ch) => {
                        let keep = match filter_mode {
                            FilterMode::Odd => ch % 2 != 0,
                            FilterMode::Even => ch % 2 == 0,
                        };
                        if keep {
                            let ghost prev = out@;
                            out.push(l.0.clone());
                            assert(views(out@) =~= views(prev).push(l.0@));
                            assert(kept(lookups@.take(k as int + 1), filter_mode) =~= kept(
                                lookups@.take(k as int),
                                filter_mode,
                            ).push(l.0@));
                        } else {
                            assert(kept(lookups@.take(k as int + 1), filter_mode) =~= kept(
                                lookups@.take(k as int),
                                filter_mode,
                            ));
                        }
                    },
                }
            },
        }
        k = k + 1;
    }
    assert(lookups@.take(n as int) =~= lookups@);
    Ok(out)
}

/// The parity filter partitions its input: every read is kept by exactly
/// one of the two modes, and the two outputs together hold each input id
/// as often as the input does, each output in input order.
pub proof fn lemma_parity_partition(ls: Seq<ChannelLookup>)
    requires
        forall|k: int| 0 <= k < ls.len() ==> (#[trigger] channel_of(ls[k])) is Some,
    ensures
        forall|k: int|
            0 <= k < ls.len() ==> keeps(FilterMode::Odd, #[trigger] channel_of(ls[k])->0) != keeps(
                FilterMode::Even,
                channel_of(ls[k])->0,
            ),
        kept(ls, FilterMode::Odd).len() + kept(ls, FilterMode::Even).len() == ls.len(),
        kept(ls, FilterMode::Odd).to_multiset().add(kept(ls, FilterMode::Even).to_multiset())
            == ids(ls).to_multiset(),
    decreases ls.len(),
{
    broadcast use vstd::seq_lib::group_to_multiset_ensures;

    if ls.len() > 0 {
        let front = ls.drop_last();
        assert forall|k: int| 0 <= k < front.len() implies (#[trigger] channel_of(front[k])) is Some by {
            assert(front[k] == ls[k]);
        }
        lemma_parity_partition(front);
        let last = ls.last();
        let ch = channel_of(ls[ls.len() - 1])->0;
        assert(ids(ls) =~= ids(front).push(last.0@));
        let o = kept(front, FilterMode::Odd);
        let e = kept(front, FilterMode::Even);
        if ch % 2 == 1 {
            assert(kept(ls, FilterMode::Odd) =~= o.push(last.0@));
            assert(kept(ls, FilterMode::Even) =~= e);
        } else {
            assert(kept(ls, FilterMode::Odd) =~= o);
            assert(kept(ls, FilterMode::Even) =~= e.push(last.0@));
        }
        assert(kept(ls, FilterMode::Odd).to_multiset().add(kept(ls, FilterMode::Even).to_multiset())
            =~= ids(ls).to_multiset());
    } else {
        assert(ids(ls) =~= seq![]);
    }
}

} // verus!
