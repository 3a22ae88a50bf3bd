use vstd::prelude::*;

verus! {

/// One rate bucket: a send category with its minimum interval between sends
/// and the earliest time at which its next send may start.
#[derive(Clone, Copy, Debug, PartialEq, Eq, Structural)]
pub struct Bucket {
    pub category: u64,
    pub interval: u64,
    pub next_eligible: u64,
}

/// Per-category cooldowns, with the log of the sends it let through as
/// (bucket index, start time) pairs.
pub struct RateGate {
    buckets: Vec<Bucket>,
    sends: Ghost<Seq<(int, u64)>>,
}

/// The position of `category` among `bs`, if present.
pub open spec fn has_category(bs: Seq<Bucket>, category: u64) -> bool {
    exists|i: int| 0 <= i < bs.len() && (#[trigger] bs[i]).category == category
}

impl RateGate {
    pub closed spec fn buckets(&self) -> Seq<Bucket> {
        self.buckets@
    }

    /// Sends let through, in order: the bucket index and the start time.
    pub closed spec fn sends(&self) -> Seq<(int, u64)> {
        self.sends@
    }

    pub open spec fn wf(&self) -> bool {
        let bs = self.buckets();
        let log = self.sends();
        &&& forall|i: int, k: int|
            0 <= i < k < bs.len() ==> (#[trigger] bs[i]).category != (#[trigger] bs[k]).category
        &&& forall|a: int| 0 <= a < log.len() ==> 0 <= (#[trigger] log[a]).0 < bs.len()
        &&& forall|a: int|
            0 <= a < log.len() ==> bs[(#[trigger] log[a]).0].next_eligible >= log[a].1 + bs[log[a].0].interval
        &&& forall|a: int, b: int|
            0 <= a < b < log.len() && (#[trigger] log[a]).0 == (#[trigger] log[b]).0 ==> log[b].1
                >= log[a].1 + bs[log[a].0].interval
    }

    /// Every bucket's next cooldown fits in a `u64` when a send starts at `now`.
    pub open spec fn fits(&self, now: u64) -> bool {
        forall|i: int| 0 <= i < self.buckets().len() ==> now + (#[trigger] self.buckets()[i]).interval <= u64::MAX
    }

    pub fn new() -> (g: Self)
        ensures
            g.wf(),
            g.buckets() == Seq::<Bucket>::empty(),
            g.sends() == Seq::<(int, u64)>::empty(),
    {
        RateGate { buckets: Vec::new(), sends: Ghost(Seq::empty()) }
    }

    pub fn bucket_count(&self) -> (r: usize)
        ensures
            r == self.buckets().len(),
    {
        self.buckets.len()
    }

    /// The index of the bucket for `category`.
    pub fn find(&self, category: u64) -> (r: Option<usize>)
        requires
            self.wf(),
        ensures
            r matches Some(i) ==> i < self.buckets().len() && self.buckets()[i as int].category
                == category,
            r is None <==> !has_category(self.buckets(), category),
    {
        let mut i: usize = 0;
        while i < self.buckets.len()
            invariant
                i <= self.buckets@.len(),
                forall|k: int| 0 <= k < i ==> (#[trigger] self.buckets@[k]).category != category,
            decreases self.buckets@.len() - i,
        {
            if self.buckets[i].category == category {
                return Some(i);
            }
            i = i + 1;
        }
        None
    }

    /// Adds a bucket for `category` whose sends must start at least `interval`
    /// apart. Refused (`false`, nothing changed) if the category has one already.
    pub fn add_bucket(&mut self, category: u64, interval: u64) -> (r: bool)
        requires
            old(self).wf(),
        ensures
            final(self).wf(),
            final(self).sends() == old(self).sends(),
            r == !has_category(old(self).buckets(), category),
            r ==> final(self).buckets() == old(self).buckets().push(
                Bucket { category, interval, next_eligible: 0 },
            ),
            !r ==> final(self).buckets() == old(self).buckets(),
    {
        if self.find(category).is_some() {
            return false;
        }
        self.buckets.push(Bucket { category, interval, next_eligible: 0 });
        proof {
            let obs = old(self).buckets();
            let bs = self.buckets();
            let log = self.sends();
            assert forall|i: int, k: int|
                0 <= i < k < bs.len() implies (#[trigger] bs[i]).category != (#[trigger] bs[k]).category by {
                assert(obs.push(Bucket { category, interval, next_eligible: 0 }) == bs);
                if k == bs.len() - 1 {
                    assert(obs[i] == bs[i]);
                } else {
                    assert(obs[i] == bs[i]);
                    assert(obs[k] == bs[k]);
                }
            }
            assert forall|a: int| 0 <= a < log.len() implies 0 <= (#[trigger] log[a]).0 < bs.len() by {
                assert(log == old(self).sends());
                assert(0 <= old(self).sends()[a].0 < obs.len());
            }
            assert forall|a: int| 0 <= a < log.len() implies bs[(#[trigger] log[a]).0].next_eligible
                >= log[a].1 + bs[log[a].0].interval by {
                assert(log == old(self).sends());
                assert(0 <= old(self).sends()[a].0 < obs.len());
                assert(bs[log[a].0] == obs[log[a].0]);
            }
            assert forall|a: int, b: int|
                0 <= a < b < log.len() && (#[trigger] log[a]).0 == (#[trigger] log[b]).0 implies log[b].1
                >= log[a].1 + bs[log[a].0].interval by {
                assert(log == old(self).sends());
                assert(0 <= old(self).sends()[a].0 < obs.len());
                assert(old(self).sends()[b].1 >= old(self).sends()[a].1 + obs[old(self).sends()[a].0].interval);
                assert(bs[log[a].0] == obs[log[a].0]);
            }
        }
        true
    }

    /// The bucket at `i`.
    pub fn bucket(&self, i: usize) -> (r: Bucket)
        requires
            i < self.buckets().len(),
        ensures
            r == self.buckets()[i as int],
    {
        self.buckets[i]
    }

    /// Whether every bucket's next cooldown fits when a send starts at `now`.
    pub fn check_fits(&self, now: u64) -> (r: bool)
        ensures
            r == self.fits(now),
    {
        let mut i: usize = 0;
        while i < self.buckets.len()
            invariant
                i <= self.buckets@.len(),
                forall|k: int| 0 <= k < i ==> now + (#[trigger] self.buckets@[k]).interval <= u64::MAX,
            decreases self.buckets@.len() - i,
        {
            if self.buckets[i].interval > u64::MAX - now {
                assert(!(now + self.buckets()[i as int].interval <= u64::MAX));
                return false;
            }
            i = i + 1;
        }
        true
    }

    /// Lets a send of bucket `i` start at `now`, which must not be before the
    /// bucket's cooldown ends, and starts a new cooldown of the bucket's
    /// interval from `now`, whatever the send's result.
    pub fn start_send(&mut self, i: usize, now: u64)
        requires
            old(self).wf(),
            i < old(self).buckets().len(),
            now >= old(self).buckets()[i as int].next_eligible,
            now + old(self).buckets()[i as int].interval <= u64::MAX,
        ensures
            final(self).wf(),
            final(self).buckets() == old(self).buckets().update(
                i as int,
                Bucket {
                    next_eligible: (now + old(self).buckets()[i as int].interval) as u64,
                    ..old(self).buckets()[i as int]
                },
            ),
            final(self).sends() == old(self).sends().push((i as int, now)),
    {
        let b = self.buckets[i];
        self.buckets.set(i, Bucket { next_eligible: now + b.interval, ..b });
        proof {
            let obs = old(self).buckets();
            let olog = old(self).sends();
            self.sends = Ghost(olog.push((i as int, now)));
            let bs = self.buckets();
            let log = self.sends();
            assert forall|x: int, k: int|
                0 <= x < k < bs.len() implies (#[trigger] bs[x]).category != (#[trigger] bs[k]).category by {
                assert(bs[x].category == obs[x].category);
                assert(bs[k].category == obs[k].category);
            }
            assert forall|a: int| 0 <= a < log.len() implies 0 <= (#[trigger] log[a]).0 < bs.len() by {
                if a < olog.len() {
                    assert(log[a] == olog[a]);
                    assert(0 <= olog[a].0 < obs.len());
                }
            }
            assert forall|a: int| 0 <= a < log.len() implies bs[(#[trigger] log[a]).0].next_eligible
                >= log[a].1 + bs[log[a].0].interval by {
                if a < olog.len() {
                    assert(log[a] == olog[a]);
                    assert(obs[olog[a].0].next_eligible >= olog[a].1 + obs[olog[a].0].interval);
                }
            }
            assert forall|a: int, b: int|
                0 <= a < b < log.len() && (#[trigger] log[a]).0 == (#[trigger] log[b]).0 implies log[b].1
                >= log[a].1 + bs[log[a].0].interval by {
                assert(log[a] == olog[a]);
                assert(obs[olog[a].0].next_eligible >= olog[a].1 + obs[olog[a].0].interval);
                if b < olog.len() {
                    assert(log[b] == olog[b]);
                }
            }
        }
    }

    /// Any two logged sends of one bucket are spaced by at least the
    /// bucket's interval.
    pub proof fn lemma_sends_spaced(&self, a: int, b: int)
        requires
            self.wf(),
            0 <= a < b < self.sends().len(),
            self.sends()[a].0 == self.sends()[b].0,
        ensures
            self.sends()[b].1 >= self.sends()[a].1 + self.buckets()[self.sends()[a].0].interval,
    {
        assert(self.sends()[a] == self.sends@[a]);
    }
}

} // verus!
