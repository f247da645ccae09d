//! The dispatch engine: watermark store, dispatch cycle, and loop decisions.
//!
//! One cycle walks every registered platform in sorted order, fetches its
//! positions through a capability handed in by the surrounding program,
//! keeps those strictly newer than the platform's watermark, publishes them
//! in ascending timestamp order, and advances the watermark to the newest
//! timestamp presented to the publisher — whatever the delivery outcome, so
//! a position is offered at most once. The watermark map is loaded before a
//! cycle and persisted after it by the surrounding program.

use vstd::prelude::*;

use crate::config::{Config, TethysDashConfig};
use crate::dispatched_info::DispatchedInfo;
use crate::platform_info::PlatformInfo;
use crate::publisher::Publisher;
use crate::str_order::str_eq;
use crate::tethysdash_client::XEvent;
use crate::trackdb_client::{PlatformRes, Position, PositionsResponse};

verus! {

/// One watermark record: a platform and the timestamp of the last position
/// processed for it.
pub struct ReportedEntry {
    pub platform_id: String,
    pub time_ms: u64,
}

impl Clone for ReportedEntry {
    fn clone(&self) -> (res: Self)
        ensures
            res == *self,
    {
        ReportedEntry { platform_id: self.platform_id.clone(), time_ms: self.time_ms }
    }
}

/// The watermark store: for each platform, the timestamp of the last
/// position processed. A platform with no record is at watermark zero,
/// meaning nothing was processed yet.
pub struct ReportedMap {
    entries: Vec<ReportedEntry>,
}

impl View for ReportedMap {
    type V = Map<Seq<char>, u64>;

    closed spec fn view(&self) -> Map<Seq<char>, u64> {
        Map::new(
            |id: Seq<char>|
                exists|i: int|
                    0 <= i < self.entries@.len() && (#[trigger] self.entries@[i]).platform_id@
                        == id,
            |id: Seq<char>|
                self.entries@[choose|i: int|
                    0 <= i < self.entries@.len() && (#[trigger] self.entries@[i]).platform_id@
                        == id].time_ms,
        )
    }
}

impl ReportedMap {
    /// Each platform has at most one watermark record.
    pub closed spec fn inv(&self) -> bool {
        forall|i: int, j: int|
            0 <= i < j < self.entries@.len() ==> (#[trigger] self.entries@[i]).platform_id@ != (
            #[trigger] self.entries@[j]).platform_id@
    }

    /// The watermark for a platform: its recorded timestamp, or zero when
    /// nothing was processed yet.
    pub open spec fn wm(&self, id: Seq<char>) -> u64 {
        if self@.contains_key(id) {
            self@[id]
        } else {
            0
        }
    }

    /// An index holding `id` is the record the view denotes.
    proof fn lemma_at(&self, i: int)
        requires
            self.inv(),
            0 <= i < self.entries@.len(),
        ensures
            self@.contains_key(self.entries@[i].platform_id@),
            self@[self.entries@[i].platform_id@] == self.entries@[i].time_ms,
    {
        let id = self.entries@[i].platform_id@;
        let c = choose|c: int|
            0 <= c < self.entries@.len() && (#[trigger] self.entries@[c]).platform_id@ == id;
        if c != i {
            assert(self.entries@[c].platform_id@ == self.entries@[i].platform_id@);
        }
    }

    /// A store with no records: every platform at watermark zero.
    pub fn new_empty() -> (res: Self)
        ensures
            res.inv(),
            res@ =~= Map::<Seq<char>, u64>::empty(),
            forall|id: Seq<char>| res.wm(id) == 0,
    {
        let res = ReportedMap { entries: Vec::new() };
        proof {
            assert(res@ =~= Map::<Seq<char>, u64>::empty());
        }
        res
    }

    /// A store built from records loaded from durable storage. When the
    /// input repeats a platform, the last record wins, as in a keyed load.
    pub fn from_entries(entries: &Vec<ReportedEntry>) -> (res: Self)
        ensures
            res.inv(),
            forall|id: Seq<char>|
                #[trigger] res@.contains_key(id) <==> (exists|i: int|
                    0 <= i < entries@.len() && (#[trigger] entries@[i]).platform_id@ == id),
            forall|i: int|
                (0 <= i < entries@.len() && (forall|j: int|
                    i < j < entries@.len() ==> (#[trigger] entries@[j]).platform_id@
                        != entries@[i].platform_id@)) ==> res@[entries@[i].platform_id@]
                    == entries@[i].time_ms,
    {
        let mut res = ReportedMap { entries: Vec::new() };
        proof {
            assert(res@ =~= Map::<Seq<char>, u64>::empty());
        }
        let mut i: usize = 0;
        while i < entries.len()
            invariant
                i <= entries.len(),
                res.inv(),
                forall|id: Seq<char>|
                    #[trigger] res@.contains_key(id) <==> (exists|k: int|
                        0 <= k < i && (#[trigger] entries@[k]).platform_id@ == id),
                forall|k: int|
                    (0 <= k < i && (forall|j: int|
                        k < j < i ==> (#[trigger] entries@[j]).platform_id@
                            != entries@[k].platform_id@)) ==> res@[entries@[k].platform_id@]
                        == entries@[k].time_ms,
            decreases entries.len() - i,
        {
            let ghost prev = res@;
            res.set_last_ts(&entries[i].platform_id, entries[i].time_ms);
            proof {
                let cur = entries@[i as int].platform_id@;
                assert forall|id: Seq<char>| #[trigger] res@.contains_key(id) implies (exists|k: int|
                    0 <= k < i + 1 && (#[trigger] entries@[k]).platform_id@ == id) by {
                    if id == cur {
                        assert(entries@[i as int].platform_id@ == id);
                    } else {
                        assert(prev.contains_key(id));
                        let k = choose|k: int|
                            0 <= k < i && (#[trigger] entries@[k]).platform_id@ == id;
                        assert(0 <= k < i + 1 && entries@[k].platform_id@ == id);
                    }
                }
                assert forall|id: Seq<char>| (exists|k: int|
                    0 <= k < i + 1 && (#[trigger] entries@[k]).platform_id@ == id) implies #[trigger] res@.contains_key(
                    id,
                ) by {
                    let k = choose|k: int|
                        0 <= k < i + 1 && (#[trigger] entries@[k]).platform_id@ == id;
                    if id != cur {
                        assert(k < i);
                        assert(prev.contains_key(id));
                    }
                }
                assert forall|k: int|
                    (0 <= k < i + 1 && (forall|j: int|
                        k < j < i + 1 ==> (#[trigger] entries@[j]).platform_id@
                            != entries@[k].platform_id@)) implies res@[entries@[k].platform_id@]
                    == entries@[k].time_ms by {
                    if k == i {
                    } else {
                        assert(entries@[i as int].platform_id@ != entries@[k].platform_id@);
                        assert(forall|j: int|
                            k < j < i ==> (#[trigger] entries@[j]).platform_id@
                                != entries@[k].platform_id@);
                        assert(prev[entries@[k].platform_id@] == entries@[k].time_ms);
                    }
                }
            }
            i += 1;
        }
        res
    }

    /// The recorded watermark for the platform, zero when none is recorded.
    pub fn get_last_ts(&self, platform_id: &str) -> (ts: u64)
        requires
            self.inv(),
        ensures
            ts == self.wm(platform_id@),
    {
        let mut i: usize = 0;
        while i < self.entries.len()
            invariant
                self.inv(),
                i <= self.entries.len(),
                forall|j: int| 0 <= j < i ==> (#[trigger] self.entries@[j]).platform_id@ != platform_id@,
            decreases self.entries.len() - i,
        {
            if str_eq(self.entries[i].platform_id.as_str(), platform_id) {
                proof {
                    self.lemma_at(i as int);
                }
                return self.entries[i].time_ms;
            }
            i += 1;
        }
        proof {
            assert(!self@.contains_key(platform_id@));
        }
        0
    }

    /// Record the watermark for the platform, replacing any earlier record.
    pub fn set_last_ts(&mut self, platform_id: &String, time_ms: u64)
        requires
            old(self).inv(),
        ensures
            final(self).inv(),
            final(self)@ =~= old(self)@.insert(platform_id@, time_ms),
    {
        let ghost prev = *old(self);
        let mut i: usize = 0;
        while i < self.entries.len()
            invariant
                *self == prev,
                prev == *old(self),
                prev.inv(),
                i <= self.entries.len(),
                forall|j: int| 0 <= j < i ==> (#[trigger] self.entries@[j]).platform_id@ != platform_id@,
            decreases self.entries.len() - i,
        {
            if str_eq(self.entries[i].platform_id.as_str(), platform_id) {
                self.entries.remove(i);
                self.entries.insert(i, ReportedEntry { platform_id: platform_id.clone(), time_ms });
                proof {
                    self.lemma_upsert(prev, i as int, platform_id@, time_ms);
                }
                return;
            }
            i += 1;
        }
        let ghost n = self.entries@.len() as int;
        self.entries.push(ReportedEntry { platform_id: platform_id.clone(), time_ms });
        proof {
            self.lemma_upsert(prev, n, platform_id@, time_ms);
        }
    }

    /// After writing the record for `id` at index `i` (everything else
    /// unchanged, no other record holding `id`), the view is the old map
    /// with `id` bound to `time_ms`.
    proof fn lemma_upsert(&self, prev: ReportedMap, i: int, id: Seq<char>, time_ms: u64)
        requires
            prev.inv(),
            0 <= i < self.entries@.len(),
            self.entries@.len() == prev.entries@.len() || (self.entries@.len()
                == prev.entries@.len() + 1 && i == prev.entries@.len()),
            forall|k: int|
                0 <= k < self.entries@.len() && k != i ==> #[trigger] self.entries@[k]
                    == prev.entries@[k],
            self.entries@[i].platform_id@ == id,
            self.entries@[i].time_ms == time_ms,
            i < prev.entries@.len() ==> prev.entries@[i].platform_id@ == id,
            i == prev.entries@.len() ==> !prev@.contains_key(id),
        ensures
            self.inv(),
            self@ =~= prev@.insert(id, time_ms),
    {
        assert forall|k: int, l: int| 0 <= k < l < self.entries@.len() implies (
        #[trigger] self.entries@[k]).platform_id@ != (#[trigger] self.entries@[l]).platform_id@ by {
            if k != i && l != i {
                assert(prev.entries@[k].platform_id@ != prev.entries@[l].platform_id@);
            } else if l == i && i == prev.entries@.len() {
                prev.lemma_at(k);
                if prev.entries@[k].platform_id@ == id {
                    assert(prev@.contains_key(id));
                }
            } else if l == i {
                assert(prev.entries@[k].platform_id@ != prev.entries@[i].platform_id@);
            } else {
                if i < prev.entries@.len() {
                    assert(prev.entries@[i].platform_id@ != prev.entries@[l].platform_id@);
                } else {
                    prev.lemma_at(l);
                    if prev.entries@[l].platform_id@ == id {
                        assert(prev@.contains_key(id));
                    }
                }
            }
        }
        assert forall|k2: Seq<char>| self@.contains_key(k2) implies prev@.insert(
            id,
            time_ms,
        ).contains_key(k2) by {
            if k2 != id {
                let k = choose|k: int|
                    0 <= k < self.entries@.len() && (#[trigger] self.entries@[k]).platform_id@
                        == k2;
                assert(k != i);
                prev.lemma_at(k);
            }
        }
        assert forall|k2: Seq<char>| prev@.insert(id, time_ms).contains_key(k2) implies self@.contains_key(
            k2,
        ) by {
            if k2 != id {
                assert(prev@.contains_key(k2));
                let k = choose|k: int|
                    0 <= k < prev.entries@.len() && (#[trigger] prev.entries@[k]).platform_id@
                        == k2;
                assert(k != i);
                assert(self.entries@[k].platform_id@ == k2);
            } else {
                assert(self.entries@[i].platform_id@ == id);
            }
        }
        assert forall|k2: Seq<char>| self@.contains_key(k2) implies self@[k2] == prev@.insert(
            id,
            time_ms,
        )[k2] by {
            let c = choose|c: int|
                0 <= c < self.entries@.len() && (#[trigger] self.entries@[c]).platform_id@ == k2;
            self.lemma_at(c);
            if k2 == id {
                if c != i {
                    assert(self.entries@[c].platform_id@ == self.entries@[i].platform_id@);
                }
                assert(self@[k2] == time_ms);
            } else {
                assert(c != i);
                prev.lemma_at(c);
            }
        }
    }

    /// The watermark records, one per platform, for persistence.
    pub fn get_entries(&self) -> (res: Vec<ReportedEntry>)
        requires
            self.inv(),
        ensures
            forall|i: int, j: int|
                0 <= i < j < res@.len() ==> (#[trigger] res@[i]).platform_id@ != (
                #[trigger] res@[j]).platform_id@,
            forall|i: int|
                0 <= i < res@.len() ==> self@.contains_key((#[trigger] res@[i]).platform_id@)
                    && self@[res@[i].platform_id@] == res@[i].time_ms,
            forall|id: Seq<char>|
                #[trigger] self@.contains_key(id) ==> exists|i: int|
                    0 <= i < res@.len() && (#[trigger] res@[i]).platform_id@ == id,
    {
        let mut res: Vec<ReportedEntry> = Vec::new();
        let mut i: usize = 0;
        while i < self.entries.len()
            invariant
                i <= self.entries.len(),
                self.inv(),
                res@.len() == i,
                forall|j: int| 0 <= j < i ==> #[trigger] res@[j] == self.entries@[j],
            decreases self.entries.len() - i,
        {
            res.push(self.entries[i].clone());
            i += 1;
        }
        proof {
            assert forall|k: int| 0 <= k < res@.len() implies self@.contains_key(
                (#[trigger] res@[k]).platform_id@,
            ) && self@[res@[k].platform_id@] == res@[k].time_ms by {
                self.lemma_at(k);
            }
            assert forall|id: Seq<char>| #[trigger] self@.contains_key(id) implies exists|i2: int|
                0 <= i2 < res@.len() && (#[trigger] res@[i2]).platform_id@ == id by {
                let k = choose|k: int|
                    0 <= k < self.entries@.len() && (#[trigger] self.entries@[k]).platform_id@
                        == id;
                assert(res@[k].platform_id@ == id);
            }
        }
        res
    }
}

/// The positions strictly newer than the watermark, in received order.
pub open spec fn new_positions(positions: Seq<Position>, last_ts: u64) -> Seq<Position> {
    positions.filter(|p: Position| p.time_ms > last_ts)
}

/// Ascending by timestamp.
pub open spec fn sorted_by_time(s: Seq<Position>) -> bool {
    forall|i: int, j: int|
        0 <= i < j < s.len() ==> (#[trigger] s[i]).time_ms <= (#[trigger] s[j]).time_ms
}

/// The newest timestamp among the positions; zero when there are none.
pub open spec fn max_time(s: Seq<Position>) -> u64
    decreases s.len(),
{
    if s.len() == 0 {
        0
    } else {
        let m = max_time(s.drop_last());
        if s.last().time_ms > m {
            s.last().time_ms
        } else {
            m
        }
    }
}

/// The newest timestamp is carried by some position, and no position is
/// newer.
pub proof fn lemma_max_time_properties(s: Seq<Position>)
    requires
        s.len() > 0,
    ensures
        exists|i: int| 0 <= i < s.len() && (#[trigger] s[i]).time_ms == max_time(s),
        forall|i: int| 0 <= i < s.len() ==> (#[trigger] s[i]).time_ms <= max_time(s),
    decreases s.len(),
{
    if s.len() == 1 {
        assert(s[0].time_ms == max_time(s));
    } else {
        lemma_max_time_properties(s.drop_last());
        if s.last().time_ms > max_time(s.drop_last()) {
            assert(s[s.len() - 1].time_ms == max_time(s));
        } else {
            let i = choose|i: int|
                0 <= i < s.drop_last().len() && (#[trigger] s.drop_last()[i]).time_ms == max_time(
                    s.drop_last(),
                );
            assert(s[i].time_ms == max_time(s));
        }
        assert forall|i: int| 0 <= i < s.len() implies (#[trigger] s[i]).time_ms <= max_time(
            s,
        ) by {
            if i < s.len() - 1 {
                assert(s.drop_last()[i].time_ms <= max_time(s.drop_last()));
            }
        }
    }
}

/// Two position sequences holding the same positions have the same newest
/// timestamp.
pub proof fn lemma_max_time_multiset(a: Seq<Position>, b: Seq<Position>)
    requires
        a.to_multiset() == b.to_multiset(),
    ensures
        max_time(a) == max_time(b),
{
    broadcast use vstd::seq_lib::group_to_multiset_ensures;

    assert(a.to_multiset().len() == a.len());
    assert(b.to_multiset().len() == b.len());
    if a.len() == 0 {
        assert(b.len() == 0);
    } else {
        assert(b.len() > 0);
        lemma_max_time_properties(a);
        lemma_max_time_properties(b);
        let i = choose|i: int| 0 <= i < a.len() && (#[trigger] a[i]).time_ms == max_time(a);
        assert(a.contains(a[i]));
        assert(a.to_multiset().count(a[i]) > 0);
        assert(b.to_multiset().count(a[i]) > 0);
        assert(b.contains(a[i]));
        let j = choose|j: int| 0 <= j < b.len() && (#[trigger] b[j]).time_ms == max_time(b);
        assert(b.contains(b[j]));
        assert(b.to_multiset().count(b[j]) > 0);
        assert(a.to_multiset().count(b[j]) > 0);
        assert(a.contains(b[j]));
    }
}

/// Keep the positions strictly newer than the watermark, in received order.
fn filter_new_positions(positions: &Vec<Position>, last_ts: u64) -> (kept: Vec<Position>)
    ensures
        kept@ == new_positions(positions@, last_ts),
{
    let mut kept: Vec<Position> = Vec::new();
    let mut i: usize = 0;
    proof {
        reveal(Seq::filter);
        assert(positions@.take(0) =~= Seq::<Position>::empty());
        assert(kept@ =~= new_positions(positions@.take(0), last_ts));
    }
    while i < positions.len()
        invariant
            i <= positions.len(),
            kept@ == new_positions(positions@.take(i as int), last_ts),
        decreases positions.len() - i,
    {
        let p = positions[i];
        if p.time_ms > last_ts {
            kept.push(p);
        }
        proof {
            reveal(Seq::filter);
            let taken1 = positions@.take(i as int + 1);
            assert(taken1.drop_last() =~= positions@.take(i as int));
            assert(taken1.last() == p);
        }
        i += 1;
    }
    proof {
        assert(positions@.take(positions@.len() as int) =~= positions@);
    }
    kept
}

/// Sort positions ascending by timestamp; the same positions come out that
/// went in.
fn sort_positions_by_time(positions: Vec<Position>) -> (sorted: Vec<Position>)
    ensures
        sorted@.to_multiset() == positions@.to_multiset(),
        sorted@.len() == positions@.len(),
        sorted_by_time(sorted@),
{
    broadcast use vstd::seq_lib::group_to_multiset_ensures;

    let mut sorted: Vec<Position> = Vec::new();
    let mut i: usize = 0;
    proof {
        assert(positions@.take(0) =~= Seq::<Position>::empty());
        assert(sorted@.to_multiset() =~= positions@.take(0).to_multiset());
    }
    while i < positions.len()
        invariant
            i <= positions.len(),
            sorted@.len() == i,
            sorted@.to_multiset() == positions@.take(i as int).to_multiset(),
            sorted_by_time(sorted@),
        decreases positions.len() - i,
    {
        broadcast use vstd::seq_lib::group_to_multiset_ensures;

        let p = positions[i];
        let mut k: usize = 0;
        while k < sorted.len() && sorted[k].time_ms <= p.time_ms
            invariant
                k <= sorted.len(),
                forall|j: int| 0 <= j < k ==> (#[trigger] sorted@[j]).time_ms <= p.time_ms,
            decreases sorted.len() - k,
        {
            k += 1;
        }
        let ghost before = sorted@;
        sorted.insert(k, p);
        proof {
            assert(sorted@ == before.insert(k as int, p));
            before.insert_ensures(k as int, p);
            assert forall|x: int, y: int| 0 <= x < y < sorted@.len() implies (
            #[trigger] sorted@[x]).time_ms <= (#[trigger] sorted@[y]).time_ms by {
                if x == k {
                    assert(before[y - 1].time_ms >= p.time_ms) by {
                        if y - 1 > k {
                            assert(before[k as int].time_ms <= before[y - 1].time_ms);
                        }
                        assert(k < before.len());
                        assert(before[k as int].time_ms > p.time_ms);
                    }
                } else if y == k {
                    assert(sorted@[x] == before[x]);
                } else if x < k && y > k {
                    assert(before[x].time_ms <= before[y - 1].time_ms);
                } else if x > k {
                    assert(before[x - 1].time_ms <= before[y - 1].time_ms);
                } else {
                    assert(before[x].time_ms <= before[y].time_ms);
                }
            }
            assert(sorted@.to_multiset() =~= before.to_multiset().insert(p));
            assert(positions@.take(i as int + 1) =~= positions@.take(i as int).push(p));
            assert(positions@.take(i as int + 1).to_multiset() =~= positions@.take(
                i as int,
            ).to_multiset().insert(p));
        }
        i += 1;
    }
    proof {
        assert(positions@.take(positions@.len() as int) =~= positions@);
    }
    sorted
}

/// The decision the dispatch loop takes on each tick.
#[derive(Clone, Copy, PartialEq, Eq, Structural, Debug)]
pub enum DispatchStep {
    /// Run one dispatch cycle now.
    RunCycle,
    /// Sleep for one tick, then ask again.
    Sleep,
    /// Leave the loop for good; there is no restart.
    Stop,
}

/// What the cancellation channel reported when polled.
#[derive(Clone, Copy, PartialEq, Eq, Structural, Debug)]
pub enum DispatchSignal {
    /// An explicit stop signal arrived.
    Done,
    /// The signalling side is gone; treated as a stop, since the
    /// coordinating side failed.
    Disconnected,
    /// Nothing arrived; carry on.
    Pending,
}

/// Orchestrates dispatch cycles: holds the poll period and the publisher,
/// and decides each step of the polling loop. The surrounding program runs
/// the loop itself (its sleeps and its cancellation channel are not the
/// library's), fetches positions, and loads and persists the watermark
/// store around each cycle.
pub struct Dispatcher<F: Fn(TethysDashConfig, XEvent) -> Result<(), String>> {
    poll_period_ms: u64,
    publisher: Publisher<F>,
}

impl<F: Fn(TethysDashConfig, XEvent) -> Result<(), String>> Dispatcher<F> {
    /// The publisher holding the posting capability and the subscribers.
    pub closed spec fn spec_publisher(&self) -> Publisher<F> {
        self.publisher
    }

    /// The pause between dispatch cycles, in milliseconds.
    pub closed spec fn spec_poll_period_ms(&self) -> u64 {
        self.poll_period_ms
    }

    /// The posting capability accepts every subscriber/event pair.
    pub open spec fn post_callable(&self) -> bool {
        self.spec_publisher().post_callable()
    }

    pub fn new(post_xevent: F, config: &Config) -> (dispatcher: Dispatcher<F>)
        ensures
            dispatcher.spec_poll_period_ms() == config.poll_period_ms,
            dispatcher.spec_publisher().spec_post() == post_xevent,
            dispatcher.spec_publisher().spec_subscribers() == config.tethysdashes@,
    {
        Dispatcher {
            poll_period_ms: config.poll_period_ms,
            publisher: Publisher::new(
                post_xevent,
                crate::config::clone_tethysdashes(&config.tethysdashes),
            ),
        }
    }

    /// The pause between dispatch cycles, for the loop runner.
    pub fn poll_period_ms(&self) -> (ms: u64)
        ensures
            ms == self.spec_poll_period_ms(),
    {
        self.poll_period_ms
    }

    /// Decide the next step of the polling loop. Any stop or lost
    /// cancellation channel ends the loop; otherwise a cycle runs whenever
    /// the remaining wait reaches zero, and the wait then starts over at the
    /// poll period; otherwise the loop sleeps one tick.
    pub fn next_loop_step(&self, remaining_time_ms: u64, signal: DispatchSignal, tick_ms: u64) -> (r:
        (DispatchStep, u64))
        ensures
            (signal is Done || signal is Disconnected) ==> r.0 is Stop,
            signal is Pending && remaining_time_ms == 0 ==> r.0 is RunCycle && r.1
                == self.spec_poll_period_ms(),
            signal is Pending && remaining_time_ms > 0 ==> r.0 is Sleep && r.1 == (
            if tick_ms <= remaining_time_ms {
                (remaining_time_ms - tick_ms) as u64
            } else {
                0u64
            }),
    {
        match signal {
            DispatchSignal::Done => (DispatchStep::Stop, remaining_time_ms),
            DispatchSignal::Disconnected => (DispatchStep::Stop, remaining_time_ms),
            DispatchSignal::Pending => {
                if remaining_time_ms == 0 {
                    (DispatchStep::RunCycle, self.poll_period_ms)
                } else {
                    if tick_ms <= remaining_time_ms {
                        (DispatchStep::Sleep, remaining_time_ms - tick_ms)
                    } else {
                        (DispatchStep::Sleep, 0)
                    }
                }
            },
        }
    }

    /// The registered platforms that have cached metadata, in the
    /// registry's sorted order; a registered platform without metadata is
    /// skipped and left registered.
    pub fn get_dispatched_platforms(
        &self,
        platform_info: &PlatformInfo,
        dispatched_info: &DispatchedInfo,
    ) -> (platforms: Vec<PlatformRes>)
        requires
            platform_info.inv(),
            dispatched_info.inv(),
        ensures
            platforms@.len() == crate::platform_info::cached_ids(dispatched_info@, *platform_info).len(),
            forall|k: int|
                0 <= k < platforms@.len() ==> (#[trigger] platforms@[k])@.id == crate::platform_info::cached_ids(
                    dispatched_info@,
                    *platform_info,
                )[k] && platforms@[k]@ == platform_info.spec_get(platforms@[k]@.id),
    {
        let ids = dispatched_info.get_platform_ids();
        let mut platforms: Vec<PlatformRes> = Vec::new();
        let mut i: usize = 0;
        proof {
            reveal(Seq::filter);
            assert(dispatched_info@.take(0) =~= Seq::<Seq<char>>::empty());
            assert(platforms_ids_view(platforms@) =~= crate::platform_info::cached_ids(
                dispatched_info@.take(0),
                *platform_info,
            ));
        }
        while i < ids.len()
            invariant
                i <= ids.len(),
                platform_info.inv(),
                ids.deep_view() == dispatched_info@,
                ids@.len() == dispatched_info@.len(),
                platforms_ids_view(platforms@) == crate::platform_info::cached_ids(
                    dispatched_info@.take(i as int),
                    *platform_info,
                ),
                forall|k: int|
                    0 <= k < platforms@.len() ==> (#[trigger] platforms@[k])@
                        == platform_info.spec_get(platforms@[k]@.id),
            decreases ids.len() - i,
        {
            let ghost prev_ids = platforms_ids_view(platforms@);
            match platform_info.get_platform(ids[i].as_str()) {
                Some(platform) => {
                    platforms.push(platform);
                },
                None => {
                    // no metadata for this platform: skipped, not
                    // deregistered
                },
            }
            proof {
                reveal(Seq::filter);
                let taken1 = dispatched_info@.take(i as int + 1);
                assert(taken1.drop_last() =~= dispatched_info@.take(i as int));
                assert(taken1.last() == dispatched_info@[i as int]);
                assert(ids@[i as int]@ == dispatched_info@[i as int]);
                if platform_info.has_platform(dispatched_info@[i as int]) {
                    assert(platforms_ids_view(platforms@) =~= prev_ids.push(
                        dispatched_info@[i as int],
                    ));
                } else {
                    assert(platforms_ids_view(platforms@) =~= prev_ids);
                }
            }
            i += 1;
        }
        proof {
            assert(dispatched_info@.take(dispatched_info@.len() as int) =~= dispatched_info@);
        }
        platforms
    }

    /// Process the fetched positions of one platform: keep those newer than
    /// the platform's watermark, publish them in ascending timestamp order,
    /// and advance the watermark to each published timestamp in turn —
    /// whatever the delivery outcome. Returns how many positions were
    /// processed; the count owes nothing to any subscriber's success.
    pub fn report_positions(
        &self,
        reported_map: &mut ReportedMap,
        platform: &PlatformRes,
        positions: Vec<Position>,
    ) -> (count: usize)
        requires
            old(reported_map).inv(),
            self.post_callable(),
        ensures
            final(reported_map).inv(),
            count == new_positions(positions@, old(reported_map).wm(platform@.id)).len(),
            new_positions(positions@, old(reported_map).wm(platform@.id)).len() == 0
                ==> final(reported_map)@ == old(reported_map)@,
            new_positions(positions@, old(reported_map).wm(platform@.id)).len() > 0
                ==> final(reported_map)@ =~= old(reported_map)@.insert(
                platform@.id,
                max_time(new_positions(positions@, old(reported_map).wm(platform@.id))),
            ),
            forall|id: Seq<char>| final(reported_map).wm(id) >= old(reported_map).wm(id),
    {
        let last_ts_reported = reported_map.get_last_ts(platform._id.as_str());
        let ghost deliv = new_positions(positions@, last_ts_reported);
        let new_to_report = filter_new_positions(&positions, last_ts_reported);
        if new_to_report.len() == 0 {
            return 0;
        }
        let count = new_to_report.len();
        let sorted = sort_positions_by_time(new_to_report);
        proof {
            lemma_max_time_multiset(sorted@, deliv);
            lemma_max_time_properties(sorted@);
            broadcast use vstd::seq_lib::group_to_multiset_ensures;

            assert forall|j: int| 0 <= j < sorted@.len() implies (#[trigger] sorted@[j]).time_ms
                > last_ts_reported by {
                assert(sorted@.contains(sorted@[j]));
                assert(sorted@.to_multiset().count(sorted@[j]) > 0);
                assert(deliv.to_multiset().count(sorted@[j]) > 0);
                assert(deliv.contains(sorted@[j]));
                let k = choose|k: int| 0 <= k < deliv.len() && deliv[k] == sorted@[j];
                Seq::lemma_filter_pred(
                    positions@,
                    |p: Position| p.time_ms > last_ts_reported,
                    k,
                );
            }
            assert(sorted@[sorted@.len() - 1].time_ms == max_time(sorted@)) by {
                let m = choose|m: int|
                    0 <= m < sorted@.len() && (#[trigger] sorted@[m]).time_ms == max_time(sorted@);
                assert(sorted@[m].time_ms <= sorted@[sorted@.len() - 1].time_ms);
                assert(sorted@[sorted@.len() - 1].time_ms <= max_time(sorted@));
            }
        }
        let ghost wm0 = *old(reported_map);
        let n = sorted.len();
        let mut j: usize = 0;
        while j < n
            invariant
                n == sorted@.len(),
                0 < n,
                j <= n,
                self.post_callable(),
                reported_map.inv(),
                sorted_by_time(sorted@),
                wm0@ == old(reported_map)@,
                j == 0 ==> reported_map@ == wm0@,
                j > 0 ==> reported_map@ =~= wm0@.insert(platform@.id, sorted@[j - 1].time_ms),
            decreases n - j,
        {
            let position = &sorted[j];
            let xevent = XEvent::compose(platform, position);
            proof {
                assert(self.spec_publisher().post_callable());
            }
            let _ = self.publisher.publish_xevent(xevent);
            let new_last_ts_reported = position.time_ms;
            reported_map.set_last_ts(&platform._id, new_last_ts_reported);
            proof {
                assert(reported_map@ =~= wm0@.insert(platform@.id, sorted@[j as int].time_ms));
            }
            j += 1;
        }
        proof {
            assert(reported_map@ =~= wm0@.insert(platform@.id, max_time(deliv)));
            assert(max_time(deliv) == max_time(sorted@));
            assert(max_time(sorted@) > last_ts_reported);
            assert forall|id: Seq<char>| reported_map.wm(id) >= wm0.wm(id) by {
                if id == platform@.id {
                    assert(reported_map.wm(id) == max_time(deliv));
                } else {
                    assert(reported_map@.contains_key(id) == wm0@.contains_key(id));
                }
            }
        }
        count
    }

    /// Process whatever one platform's fetch yielded. No response — a fetch
    /// failure, recovered as "no positions this cycle" — processes nothing
    /// and leaves the watermark store exactly as it was, as if the platform
    /// were absent from the cycle; a response is processed as
    /// `report_positions` states over its positions. Either way no
    /// watermark moves backwards and no other platform's watermark moves at
    /// all.
    pub fn report_fetched_positions(
        &self,
        reported_map: &mut ReportedMap,
        platform: &PlatformRes,
        pos_res: Option<PositionsResponse>,
    ) -> (count: usize)
        requires
            old(reported_map).inv(),
            self.post_callable(),
        ensures
            final(reported_map).inv(),
            pos_res is None ==> count == 0 && final(reported_map)@ == old(reported_map)@,
            pos_res matches Some(pr) ==> {
                let deliv = new_positions(pr@.positions, old(reported_map).wm(platform@.id));
                &&& count == deliv.len()
                &&& deliv.len() == 0 ==> final(reported_map)@ == old(reported_map)@
                &&& deliv.len() > 0 ==> final(reported_map)@ =~= old(reported_map)@.insert(
                    platform@.id,
                    max_time(deliv),
                )
            },
            forall|id: Seq<char>| final(reported_map).wm(id) >= old(reported_map).wm(id),
            forall|id: Seq<char>|
                id != platform@.id ==> final(reported_map).wm(id) == old(reported_map).wm(id),
    {
        if let Some(pos_res) = pos_res {
            let count = self.report_positions(reported_map, platform, pos_res.positions);
            proof {
                let deliv = new_positions(
                    pos_res.positions@,
                    old(reported_map).wm(platform@.id),
                );
                if deliv.len() > 0 {
                    assert forall|id: Seq<char>|
                        id != platform@.id implies reported_map.wm(id) == old(reported_map).wm(
                        id,
                    ) by {
                        assert(reported_map@.contains_key(id) == old(reported_map)@.contains_key(
                            id,
                        ));
                    }
                }
            }
            count
        } else {
            0
        }
    }

    /// One platform's share of a cycle: fetch its positions through the
    /// capability and process what came back, as `report_fetched_positions`
    /// states for every possible fetch outcome.
    pub fn dispatch_platform<G: Fn(String) -> Option<PositionsResponse>>(
        &self,
        fetch_positions: &G,
        reported_map: &mut ReportedMap,
        platform: &PlatformRes,
    ) -> (count: usize)
        requires
            old(reported_map).inv(),
            self.post_callable(),
            forall|id: String| call_requires(*fetch_positions, (id,)),
        ensures
            final(reported_map).inv(),
            forall|id: Seq<char>| final(reported_map).wm(id) >= old(reported_map).wm(id),
            forall|id: Seq<char>|
                id != platform@.id ==> final(reported_map).wm(id) == old(reported_map).wm(id),
    {
        let pos_res = (fetch_positions)(platform._id.clone());
        self.report_fetched_positions(reported_map, platform, pos_res)
    }

    /// One dispatch cycle: walk every registered platform with cached
    /// metadata in sorted order, fetch, filter, publish, advance the
    /// watermark. Returns the number of positions processed over all
    /// platforms. No watermark ever moves backwards, whatever any fetch or
    /// delivery did.
    pub fn dispatch_one<G: Fn(String) -> Option<PositionsResponse>>(
        &self,
        fetch_positions: &G,
        platform_info: &PlatformInfo,
        dispatched_info: &DispatchedInfo,
        reported_map: &mut ReportedMap,
    ) -> (num_dispatched: usize)
        requires
            platform_info.inv(),
            dispatched_info.inv(),
            old(reported_map).inv(),
            self.post_callable(),
            forall|id: String| call_requires(*fetch_positions, (id,)),
        ensures
            final(reported_map).inv(),
            forall|id: Seq<char>| final(reported_map).wm(id) >= old(reported_map).wm(id),
    {
        let platforms = self.get_dispatched_platforms(platform_info, dispatched_info);
        let mut num_dispatched: usize = 0;
        let mut i: usize = 0;
        while i < platforms.len()
            invariant
                i <= platforms.len(),
                reported_map.inv(),
                self.post_callable(),
                forall|id: String| call_requires(*fetch_positions, (id,)),
                forall|id: Seq<char>| reported_map.wm(id) >= old(reported_map).wm(id),
            decreases platforms.len() - i,
        {
            let ghost mid = *reported_map;
            let count = self.dispatch_platform(fetch_positions, reported_map, &platforms[i]);
            proof {
                assert forall|id: Seq<char>| reported_map.wm(id) >= old(reported_map).wm(
                    id,
                ) by {
                    assert(reported_map.wm(id) >= mid.wm(id));
                }
            }
            num_dispatched = if num_dispatched <= usize::MAX - count {
                num_dispatched + count
            } else {
                usize::MAX
            };
            i += 1;
        }
        num_dispatched
    }
}

/// The identifiers of a sequence of platform records, in order.
pub open spec fn platforms_ids_view(s: Seq<PlatformRes>) -> Seq<Seq<char>> {
    Seq::new(s.len(), |i: int| s[i]@.id)
}

/// Whatever was fetched, a position stamped at or before the watermark is
/// never among the positions a cycle processes; and once a cycle processed
/// any position, the watermark stands at the newest processed timestamp,
/// strictly above where it was.
pub proof fn lemma_watermark_monotonic(positions: Seq<Position>, last_ts: u64)
    ensures
        forall|i: int|
            0 <= i < new_positions(positions, last_ts).len() ==> (#[trigger] new_positions(
                positions,
                last_ts,
            )[i]).time_ms > last_ts,
        new_positions(positions, last_ts).len() > 0 ==> max_time(
            new_positions(positions, last_ts),
        ) > last_ts,
{
    let deliv = new_positions(positions, last_ts);
    assert forall|i: int| 0 <= i < deliv.len() implies (#[trigger] deliv[i]).time_ms
        > last_ts by {
        Seq::lemma_filter_pred(
            positions,
            |p: Position| p.time_ms > last_ts,
            i,
        );
    }
    if deliv.len() > 0 {
        lemma_max_time_properties(deliv);
        let i = choose|i: int| 0 <= i < deliv.len() && (#[trigger] deliv[i]).time_ms == max_time(
            deliv,
        );
        assert(deliv[i].time_ms > last_ts);
    }
}

/// Once the watermark for a platform stands at `t`, re-fetching a source
/// response that still holds a position stamped `t` or earlier never makes
/// a later cycle process that position again: the watermark never moves
/// backwards, and a cycle only processes positions strictly newer than it.
pub proof fn lemma_no_redelivery(positions: Seq<Position>, wm_now: u64, t: u64)
    requires
        wm_now >= t,
    ensures
        forall|i: int|
            0 <= i < new_positions(positions, wm_now).len() ==> (#[trigger] new_positions(
                positions,
                wm_now,
            )[i]).time_ms > t,
{
    lemma_watermark_monotonic(positions, wm_now);
}

/// Deregistering a platform and registering it again leaves the watermark
/// store untouched: the re-registered platform is dispatched against its
/// old watermark, so positions already at or behind it stay unsent.
pub proof fn lemma_reregistration_keeps_watermark(
    registry_before: Seq<Seq<char>>,
    registry_removed: Seq<Seq<char>>,
    registry_readded: Seq<Seq<char>>,
    id: Seq<char>,
    reported: ReportedMap,
    positions: Seq<Position>,
)
    requires
        registry_before.contains(id),
        registry_removed.to_set() == registry_before.to_set().remove(id),
        registry_readded.to_set() == registry_removed.to_set().insert(id),
    ensures
        registry_readded.to_set().contains(id),
        forall|i: int|
            0 <= i < new_positions(positions, reported.wm(id)).len() ==> (#[trigger] new_positions(
                positions,
                reported.wm(id),
            )[i]).time_ms > reported.wm(id),
{
    lemma_watermark_monotonic(positions, reported.wm(id));
}

} // verus!
