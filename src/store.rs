use vstd::prelude::*;

use std::collections::HashMap;

use crate::timeline::{scan_timeline, MuxStat, PoreMuxStats, TimelineModel};
use crate::types::PoreState;

verus! {

broadcast use vstd::std_specs::hash::group_hash_axioms;

/// The store after appending event `ev` to the timeline of `key`; a key
/// not yet held gets a new timeline at the end, with its cursor at 0.
pub open spec fn add_event(
    keys: Seq<(u32, u8)>,
    tls: Seq<TimelineModel>,
    key: (u32, u8),
    ev: MuxStat,
) -> (Seq<(u32, u8)>, Seq<TimelineModel>) {
    let p = key_pos(keys, key);
    if p >= 0 {
        (keys, tls.update(p, (tls[p].0.push(ev), tls[p].1)))
    } else {
        (keys.push(key), tls.push((seq![ev], 0)))
    }
}

/// The store after setting the timeline of `key` to `tl`; a key not yet
/// held is added at the end.
pub open spec fn put_timeline(
    keys: Seq<(u32, u8)>,
    tls: Seq<TimelineModel>,
    key: (u32, u8),
    tl: TimelineModel,
) -> (Seq<(u32, u8)>, Seq<TimelineModel>) {
    let p = key_pos(keys, key);
    if p >= 0 {
        (keys, tls.update(p, tl))
    } else {
        (keys.push(key), tls.push(tl))
    }
}

/// A timeline with its events in reverse order.
pub open spec fn reversed(tl: TimelineModel) -> TimelineModel {
    (tl.0.reverse(), tl.1)
}

/// The hash-index code of a `(channel, pore)` key.
pub open spec fn key_code(key: (u32, u8)) -> int {
    key.0 as int * 256 + key.1 as int
}

/// Position of `key` in `keys`, or -1 where it is absent.
pub open spec fn key_pos(keys: Seq<(u32, u8)>, key: (u32, u8)) -> int {
    if exists|i: int| 0 <= i < keys.len() && keys[i] == key {
        choose|i: int| 0 <= i < keys.len() && keys[i] == key
    } else {
        -1
    }
}

proof fn lemma_key_code_injective(a: (u32, u8), b: (u32, u8))
    requires
        key_code(a) == key_code(b),
    ensures
        a == b,
{
    let (a0, a1, b0, b1) = (a.0 as int, a.1 as int, b.0 as int, b.1 as int);
    assert(a0 == b0 && a1 == b1) by (nonlinear_arith)
        requires
            a0 * 256 + a1 == b0 * 256 + b1,
            0 <= a1 < 256,
            0 <= b1 < 256,
            a0 >= 0,
            b0 >= 0,
    ;
}

/// The Timeline Store: one timeline per `(channel, pore)` key, kept in the
/// order in which the keys were first added.
#[derive(Clone)]
pub struct PoreMuxMap {
    keys: Vec<(u32, u8)>,
    timelines: Vec<PoreMuxStats>,
    index: HashMap<u64, usize>,
}

impl PoreMuxMap {
    /// The keys, in the store's iteration order.
    pub closed spec fn keys_view(&self) -> Seq<(u32, u8)> {
        self.keys@
    }

    /// The timelines, one for each key and in the same order.
    pub closed spec fn timelines_view(&self) -> Seq<TimelineModel> {
        self.timelines@.map_values(|t: PoreMuxStats| t.model())
    }

    /// One timeline per key, and the hash index maps the code of each key
    /// to its position and holds no other code.
    pub closed spec fn wf(&self) -> bool {
        &&& self.keys@.len() == self.timelines@.len()
        &&& forall|i: int|
            0 <= i < self.keys@.len() ==> {
                &&& #[trigger] self.index@.contains_key(key_code(self.keys@[i]) as u64)
                &&& self.index@[key_code(self.keys@[i]) as u64] == i
            }
        &&& forall|c: u64| #[trigger]
            self.index@.contains_key(c) ==> {
                &&& self.index@[c] < self.keys@.len()
                &&& key_code(self.keys@[self.index@[c] as int]) == c
            }
    }

    /// Keys of a well-formed store are distinct.
    pub proof fn lemma_keys_distinct(&self)
        requires
            self.wf(),
        ensures
            self.keys_view().no_duplicates(),
            self.keys_view().len() == self.timelines_view().len(),
    {
        assert forall|i: int, k: int|
            0 <= i < self.keys@.len() && 0 <= k < self.keys@.len() && i != k implies self.keys@[i]
            != self.keys@[k] by {
            if self.keys@[i] == self.keys@[k] {
                assert(self.index@.contains_key(key_code(self.keys@[i]) as u64));
                assert(self.index@.contains_key(key_code(self.keys@[k]) as u64));
            }
        }
    }

    /// An empty store.
    pub fn new() -> (r: PoreMuxMap)
        ensures
            r.wf(),
            r.keys_view() == Seq::<(u32, u8)>::empty(),
            r.timelines_view() == Seq::<TimelineModel>::empty(),
    {
        let r = PoreMuxMap { keys: Vec::new(), timelines: Vec::new(), index: HashMap::new() };
        assert(r.timelines_view() =~= Seq::<TimelineModel>::empty());
        r
    }

    /// The number of keys.
    pub fn len(&self) -> (r: usize)
        requires
            self.wf(),
        ensures
            r == self.keys_view().len(),
    {
        self.keys.len()
    }

    /// The position of `key`, if the store holds it.
    pub fn find(&self, key: (u32, u8)) -> (r: Option<usize>)
        requires
            self.wf(),
        ensures
            match r {
                Some(i) => i == key_pos(self.keys_view(), key) && 0 <= i < self.keys_view().len(),
                None => key_pos(self.keys_view(), key) == -1,
            },
    {
        proof {
            self.lemma_keys_distinct();
        }
        let code: u64 = key.0 as u64 * 256 + key.1 as u64;
        assert(code == key_code(key));
        match self.index.get(&code) {
            Some(i) => {
                let i = *i;
                proof {
                    lemma_key_code_injective(self.keys@[i as int], key);
                    let c = choose|c: int| 0 <= c < self.keys@.len() && self.keys@[c] == key;
                    assert(self.keys@[c] == self.keys@[i as int]);
                }
                Some(i)
            },
            None => {
                assert forall|c: int| 0 <= c < self.keys@.len() implies self.keys@[c] != key by {
                    assert(self.index@.contains_key(key_code(self.keys@[c]) as u64));
                }
                None
            },
        }
    }

    /// Adds `key` with timeline `tl` at the end. The key must be new.
    fn push_new(&mut self, key: (u32, u8), tl: PoreMuxStats)
        requires
            old(self).wf(),
            key_pos(old(self).keys_view(), key) == -1,
        ensures
            final(self).wf(),
            final(self).keys_view() == old(self).keys_view().push(key),
            final(self).timelines_view() == old(self).timelines_view().push(tl.model()),
    {
        let ghost old_self = *self;
        let n = self.keys.len();
        let code: u64 = key.0 as u64 * 256 + key.1 as u64;
        assert(code == key_code(key));
        self.keys.push(key);
        self.timelines.push(tl);
        self.index.insert(code, n);
        proof {
            assert forall|i: int| 0 <= i < old_self.keys@.len() implies key_code(old_self.keys@[i])
                != key_code(key) by {
                if key_code(old_self.keys@[i]) == key_code(key) {
                    lemma_key_code_injective(old_self.keys@[i], key);
                }
            }
            assert forall|i: int| 0 <= i < self.keys@.len() implies {
                &&& #[trigger] self.index@.contains_key(key_code(self.keys@[i]) as u64)
                &&& self.index@[key_code(self.keys@[i]) as u64] == i
            } by {
                if i < n {
                    assert(old_self.index@.contains_key(key_code(old_self.keys@[i]) as u64));
                }
            }
            assert forall|c: u64| #[trigger] self.index@.contains_key(c) implies {
                &&& self.index@[c] < self.keys@.len()
                &&& key_code(self.keys@[self.index@[c] as int]) == c
            } by {
                if c != code {
                    assert(old_self.index@.contains_key(c));
                }
            }
            assert(self.timelines_view() =~= old_self.timelines_view().push(tl.model()));
        }
    }

    /// Appends event `ev` to the timeline of `key`, creating the timeline
    /// where the store does not hold the key yet.
    pub fn add_event(&mut self, key: (u32, u8), ev: MuxStat)
        requires
            old(self).wf(),
        ensures
            final(self).wf(),
            (final(self).keys_view(), final(self).timelines_view()) == add_event(
                old(self).keys_view(),
                old(self).timelines_view(),
                key,
                ev,
            ),
    {
        match self.find(key) {
            Some(i) => {
                let ghost old_self = *self;
                self.timelines[i].muxs.push(ev);
                assert(self.timelines_view() =~= old_self.timelines_view().update(
                    i as int,
                    (old_self.timelines_view()[i as int].0.push(ev), old_self.timelines_view()[i as int].1),
                ));
            },
            None => {
                let mut muxs = Vec::new();
                muxs.push(ev);
                let tl = PoreMuxStats::new(muxs);
                assert(tl.model().0 =~= seq![ev]);
                self.push_new(key, tl);
            },
        }
    }

    /// Sets the timeline of `key` to `tl`, adding the key where it is new.
    pub fn insert(&mut self, key: (u32, u8), tl: PoreMuxStats)
        requires
            old(self).wf(),
        ensures
            final(self).wf(),
            (final(self).keys_view(), final(self).timelines_view()) == put_timeline(
                old(self).keys_view(),
                old(self).timelines_view(),
                key,
                tl.model(),
            ),
    {
        match self.find(key) {
            Some(i) => {
                let ghost old_self = *self;
                let ghost m = tl.model();
                self.timelines.set(i, tl);
                assert(self.timelines_view() =~= old_self.timelines_view().update(i as int, m));
            },
            None => {
                self.push_new(key, tl);
            },
        }
    }

    /// The timeline of `key`, if the store holds it.
    pub fn get(&self, key: (u32, u8)) -> (r: Option<&PoreMuxStats>)
        requires
            self.wf(),
        ensures
            match r {
                Some(t) => key_pos(self.keys_view(), key) >= 0 && t.model()
                    == self.timelines_view()[key_pos(self.keys_view(), key)],
                None => key_pos(self.keys_view(), key) == -1,
            },
    {
        match self.find(key) {
            Some(i) => Some(&self.timelines[i]),
            None => None,
        }
    }

    /// The timeline at position `i`.
    pub fn timeline(&self, i: usize) -> (r: &PoreMuxStats)
        requires
            self.wf(),
            i < self.keys_view().len(),
        ensures
            r.model() == self.timelines_view()[i as int],
    {
        &self.timelines[i]
    }

    /// Applies one read (number `j`, started at `t`) to the timeline at
    /// position `i`.
    pub fn advance_at(&mut self, i: usize, forward: bool, t: u64, j: usize, target: PoreState)
        requires
            old(self).wf(),
            i < old(self).keys_view().len(),
        ensures
            final(self).wf(),
            final(self).keys_view() == old(self).keys_view(),
            final(self).timelines_view() == old(self).timelines_view().update(
                i as int,
                scan_timeline(forward, old(self).timelines_view()[i as int], t, j, target),
            ),
    {
        let ghost old_self = *self;
        self.timelines[i].advance(forward, t, j, target);
        assert(self.timelines_view() =~= old_self.timelines_view().update(
            i as int,
            scan_timeline(forward, old_self.timelines_view()[i as int], t, j, target),
        ));
    }

    /// Reverses the order of the events of every timeline.
    pub fn reverse_events(&mut self)
        requires
            old(self).wf(),
        ensures
            final(self).wf(),
            final(self).keys_view() == old(self).keys_view(),
            final(self).timelines_view() == old(self).timelines_view().map_values(
                |tl: TimelineModel| reversed(tl),
            ),
    {
        let ghost old_self = *self;
        let n = self.timelines.len();
        let mut i: usize = 0;
        while i < n
            invariant
                self.wf(),
                n == self.timelines@.len(),
                i <= n,
                self.keys@ == old_self.keys@,
                self.index@ == old_self.index@,
                forall|k: int|
                    0 <= k < i ==> #[trigger] self.timelines@[k].model() == reversed(
                        old_self.timelines@[k].model(),
                    ),
                forall|k: int|
                    i <= k < n ==> #[trigger] self.timelines@[k] == old_self.timelines@[k],
            decreases n - i,
        {
            let rev = reverse_vec(&self.timelines[i].muxs);
            self.timelines[i].muxs = rev;
            i = i + 1;
        }
        assert(self.timelines_view() =~= old_self.timelines_view().map_values(
            |tl: TimelineModel| reversed(tl),
        ));
    }
}

/// A copy of `v` in reverse order.
fn reverse_vec(v: &Vec<MuxStat>) -> (r: Vec<MuxStat>)
    ensures
        r@ == v@.reverse(),
{
    let n = v.len();
    let mut r: Vec<MuxStat> = Vec::new();
    let mut k: usize = n;
    while k > 0
        invariant
            k <= n,
            n == v@.len(),
            r@.len() == n - k,
            forall|m: int| 0 <= m < n - k ==> #[trigger] r@[m] == v@[n - 1 - m],
        decreases k,
    {
        k = k - 1;
        r.push(v[k]);
    }
    assert(r@ =~= v@.reverse());
    r
}

} // verus!
