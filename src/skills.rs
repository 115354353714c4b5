//! The live collection of effect instances, keyed by stable identifiers that
//! are never reused, and the per-tick cycle over it: spawn, animate, reap.
use vstd::prelude::*;
use crate::animation::TOTAL_FRAMES;
use crate::skill::{point_sum, SharedFrame, spawn_offset, spec_spawn_offset, sum_fits, Point3, SkillView, WaterSkill};
use crate::timer::{total_time, TimerMode};

verus! {

/// The map from identifier to instance that a sequence of entries stands for.
spec fn entries_map(s: Seq<(u64, WaterSkill)>) -> Map<u64, SkillView>
    decreases s.len(),
{
    if s.len() == 0 {
        Map::empty()
    } else {
        entries_map(s.drop_last()).insert(s.last().0, s.last().1@)
    }
}

/// Identifiers strictly increase along the entries.
spec fn ids_increasing(s: Seq<(u64, WaterSkill)>) -> bool {
    forall|i: int, j: int| 0 <= i < j < s.len() ==> (#[trigger] s[i]).0 < (#[trigger] s[j]).0
}

/// Every instance of the map is valid.
pub open spec fn all_wf(m: Map<u64, SkillView>) -> bool {
    forall|id: u64| #[trigger] m.dom().contains(id) ==> m[id].wf()
}

/// Every instance with its animation ticked by `dt`.
pub open spec fn animate_all(m: Map<u64, SkillView>, dt: nat) -> Map<u64, SkillView> {
    Map::new(|id: u64| m.dom().contains(id), |id: u64| m[id].animate(dt))
}

/// Every instance with its lifetime ticked by `dt`, those whose lifetime ran
/// out removed.
pub open spec fn reap_all(m: Map<u64, SkillView>, dt: nat) -> Map<u64, SkillView> {
    Map::new(
        |id: u64| m.dom().contains(id) && !m[id].age(dt).expired(),
        |id: u64| m[id].age(dt),
    )
}

/// Every instance showing `frame`.
pub open spec fn show_all(m: Map<u64, SkillView>, frame: nat) -> Map<u64, SkillView> {
    Map::new(|id: u64| m.dom().contains(id), |id: u64| SkillView { frame, ..m[id] })
}

/// One tick without a spawn: animate, then reap.
pub open spec fn advance_all(m: Map<u64, SkillView>, dt: nat) -> Map<u64, SkillView> {
    reap_all(animate_all(m, dt), dt)
}

/// The collection after a tick by each delta of `dts` in turn, with no spawn.
pub open spec fn settle(m: Map<u64, SkillView>, dts: Seq<nat>) -> Map<u64, SkillView>
    decreases dts.len(),
{
    if dts.len() == 0 {
        m
    } else {
        settle(advance_all(m, dts[0]), dts.drop_first())
    }
}

/// The live effect instances.
pub struct Skills {
    entries: Vec<(u64, WaterSkill)>,
    next_id: u64,
}

impl View for Skills {
    type V = Map<u64, SkillView>;

    closed spec fn view(&self) -> Map<u64, SkillView> {
        entries_map(self.entries@)
    }
}

proof fn lemma_entries_map_dom(s: Seq<(u64, WaterSkill)>, k: u64)
    ensures
        entries_map(s).dom().contains(k) <==> exists|j: int| 0 <= j < s.len() && (#[trigger] s[j]).0 == k,
    decreases s.len(),
{
    if s.len() > 0 {
        lemma_entries_map_dom(s.drop_last(), k);
        if entries_map(s.drop_last()).dom().contains(k) {
            let j = choose|j: int| 0 <= j < s.drop_last().len() && (#[trigger] s.drop_last()[j]).0 == k;
            assert(s[j].0 == k);
        }
        if exists|j: int| 0 <= j < s.len() && (#[trigger] s[j]).0 == k {
            let j = choose|j: int| 0 <= j < s.len() && (#[trigger] s[j]).0 == k;
            if j < s.len() - 1 {
                assert(s.drop_last()[j].0 == k);
            }
        }
    }
}

proof fn lemma_entries_map_at(s: Seq<(u64, WaterSkill)>, i: int)
    requires
        ids_increasing(s),
        0 <= i < s.len(),
    ensures
        entries_map(s).dom().contains(s[i].0),
        entries_map(s)[s[i].0] == s[i].1@,
    decreases s.len(),
{
    lemma_entries_map_dom(s, s[i].0);
    if i < s.len() - 1 {
        assert(ids_increasing(s.drop_last()));
        assert(s.drop_last()[i] == s[i]);
        lemma_entries_map_at(s.drop_last(), i);
        assert(s[i].0 < s.last().0);
    }
}

proof fn lemma_entries_map_push(s: Seq<(u64, WaterSkill)>, e: (u64, WaterSkill))
    ensures
        entries_map(s.push(e)) == entries_map(s).insert(e.0, e.1@),
{
    assert(s.push(e).drop_last() =~= s);
}

impl Skills {
    /// Sorted identifiers below the next one to issue, and valid instances.
    pub closed spec fn wf(&self) -> bool {
        &&& ids_increasing(self.entries@)
        &&& forall|i: int| 0 <= i < self.entries@.len() ==> (#[trigger] self.entries@[i]).0 < self.next_id
        &&& forall|i: int| 0 <= i < self.entries@.len() ==> (#[trigger] self.entries@[i]).1@.wf()
    }

    /// The identifier the next spawn will receive.
    pub closed spec fn next_id(&self) -> nat {
        self.next_id as nat
    }

    proof fn lemma_wf_view(&self)
        requires
            self.wf(),
        ensures
            all_wf(self@),
            forall|id: u64| #[trigger] self@.dom().contains(id) ==> id < self.next_id(),
    {
        assert forall|id: u64| #[trigger] self@.dom().contains(id) implies self@[id].wf() && id < self.next_id() by {
            lemma_entries_map_dom(self.entries@, id);
            let j = choose|j: int| 0 <= j < self.entries@.len() && (#[trigger] self.entries@[j]).0 == id;
            lemma_entries_map_at(self.entries@, j);
        }
    }

    /// An empty collection.
    pub fn new() -> (r: Skills)
        ensures
            r.wf(),
            r@ == Map::<u64, SkillView>::empty(),
            r.next_id() == 0,
    {
        Skills { entries: Vec::new(), next_id: 0 }
    }

    /// Spawns one instance at the avatar's position plus the spawn offset,
    /// when triggered and an avatar is present. Returns its identifier, or
    /// `None` with nothing changed when not triggered, without an avatar,
    /// where the position would overflow, or once identifiers run out.
    pub fn spawn_skill(&mut self, trigger: bool, avatar: Option<Point3>) -> (r: Option<u64>)
        requires
            old(self).wf(),
        ensures
            final(self).wf(),
            all_wf(final(self)@),
            r is Some <==> (trigger && old(self).next_id() < u64::MAX && match avatar {
                Some(p) => sum_fits(p, spec_spawn_offset()),
                None => false,
            }),
            r matches Some(id) ==> {
                &&& avatar matches Some(p)
                &&& !old(self)@.dom().contains(id)
                &&& final(self)@ == old(self)@.insert(id, SkillView::fresh(point_sum(p, spec_spawn_offset())))
                &&& final(self).next_id() == old(self).next_id() + 1
            },
            r is None ==> final(self)@ == old(self)@ && final(self).next_id() == old(self).next_id(),
    {
        proof {
            self.lemma_wf_view();
        }
        if !trigger || self.next_id == u64::MAX {
            return None;
        }
        let p = match avatar {
            Some(p) => p,
            None => return None,
        };
        let position = match p.checked_add(&spawn_offset()) {
            Some(q) => q,
            None => return None,
        };
        let id = self.next_id;
        let skill = WaterSkill::new(position);
        proof {
            lemma_entries_map_push(self.entries@, (id, skill));
        }
        self.entries.push((id, skill));
        self.next_id = id + 1;
        proof {
            self.lemma_wf_view();
        }
        Some(id)
    }

    /// Ticks every instance's animation timer by `dt`, stepping its frame
    /// once per firing.
    pub fn animate_skills(&mut self, dt: u64)
        requires
            old(self).wf(),
        ensures
            final(self).wf(),
            all_wf(final(self)@),
            final(self)@ == animate_all(old(self)@, dt as nat),
            final(self).next_id() == old(self).next_id(),
    {
        let mut out: Vec<(u64, WaterSkill)> = Vec::new();
        let n = self.entries.len();
        let mut i: usize = 0;
        while i < n
            invariant
                self.wf(),
                n == self.entries@.len(),
                i <= n,
                out@.len() == i,
                forall|j: int| 0 <= j < i ==> (#[trigger] out@[j]).0 == self.entries@[j].0,
                forall|j: int| 0 <= j < i ==> (#[trigger] out@[j]).1@.wf(),
                entries_map(out@) == animate_all(entries_map(self.entries@.take(i as int)), dt as nat),
            decreases n - i,
        {
            let (id, skill) = self.entries[i];
            assert(self.entries@[i as int].1@.wf());
            let mut s = skill;
            s.animate(dt);
            let ghost before = entries_map(self.entries@.take(i as int));
            proof {
                lemma_entries_map_push(out@, (id, s));
                lemma_entries_map_push(self.entries@.take(i as int), (id, skill));
                assert(self.entries@.take(i as int).push((id, skill)) =~= self.entries@.take(i + 1));
                assert(animate_all(before.insert(id, skill@), dt as nat) =~= animate_all(before, dt as nat).insert(id, s@));
            }
            out.push((id, s));
            i = i + 1;
        }
        assert(self.entries@.take(n as int) =~= self.entries@);
        self.entries = out;
        proof {
            self.lemma_wf_view();
        }
    }

    /// Ticks every instance's lifetime by `dt` and removes those whose
    /// lifetime has run out.
    pub fn despawn_skills(&mut self, dt: u64)
        requires
            old(self).wf(),
        ensures
            final(self).wf(),
            all_wf(final(self)@),
            final(self)@ == reap_all(old(self)@, dt as nat),
            final(self).next_id() == old(self).next_id(),
    {
        let mut out: Vec<(u64, WaterSkill)> = Vec::new();
        let n = self.entries.len();
        let mut i: usize = 0;
        while i < n
            invariant
                self.wf(),
                n == self.entries@.len(),
                i <= n,
                ids_increasing(out@),
                forall|j: int, k: int| 0 <= j < out@.len() && i <= k < n ==> (#[trigger] out@[j]).0 < (#[trigger] self.entries@[k]).0,
                forall|j: int| 0 <= j < out@.len() ==> (#[trigger] out@[j]).0 < self.next_id,
                forall|j: int| 0 <= j < out@.len() ==> (#[trigger] out@[j]).1@.wf(),
                entries_map(out@) == reap_all(entries_map(self.entries@.take(i as int)), dt as nat),
            decreases n - i,
        {
            let (id, skill) = self.entries[i];
            assert(self.entries@[i as int].1@.wf());
            let mut s = skill;
            let expired = s.age(dt);
            let ghost before = entries_map(self.entries@.take(i as int));
            proof {
                lemma_entries_map_push(self.entries@.take(i as int), (id, skill));
                assert(self.entries@.take(i as int).push((id, skill)) =~= self.entries@.take(i + 1));
                lemma_entries_map_dom(self.entries@.take(i as int), id);
                if before.dom().contains(id) {
                    let j = choose|j: int| 0 <= j < i && (#[trigger] self.entries@.take(i as int)[j]).0 == id;
                    assert(self.entries@[j].0 < self.entries@[i as int].0);
                }
            }
            if expired {
                proof {
                    assert(reap_all(before.insert(id, skill@), dt as nat) =~= reap_all(before, dt as nat));
                }
            } else {
                proof {
                    lemma_entries_map_push(out@, (id, s));
                    assert(reap_all(before.insert(id, skill@), dt as nat) =~= reap_all(before, dt as nat).insert(id, s@));
                }
                out.push((id, s));
            }
            i = i + 1;
        }
        assert(self.entries@.take(n as int) =~= self.entries@);
        self.entries = out;
        proof {
            self.lemma_wf_view();
        }
    }
    /// One tick in the fixed order: spawn (as `spawn_skill`), then animate
    /// every instance, then reap the expired ones, all by the same `dt`.
    pub fn step(&mut self, dt: u64, trigger: bool, avatar: Option<Point3>) -> (r: Option<u64>)
        requires
            old(self).wf(),
        ensures
            final(self).wf(),
            all_wf(final(self)@),
            r is Some <==> (trigger && old(self).next_id() < u64::MAX && match avatar {
                Some(p) => sum_fits(p, spec_spawn_offset()),
                None => false,
            }),
            r matches Some(id) ==> {
                &&& avatar matches Some(p)
                &&& !old(self)@.dom().contains(id)
                &&& final(self)@ == advance_all(
                    old(self)@.insert(id, SkillView::fresh(point_sum(p, spec_spawn_offset()))),
                    dt as nat,
                )
            },
            r is None ==> final(self)@ == advance_all(old(self)@, dt as nat),
    {
        let r = self.spawn_skill(trigger, avatar);
        self.animate_skills(dt);
        self.despawn_skills(dt);
        r
    }

    /// Sets every live instance to show `frame`, for hosts that animate one
    /// `SharedFrame` instead of each instance on its own.
    pub fn show_frame(&mut self, frame: usize)
        requires
            old(self).wf(),
            frame < TOTAL_FRAMES,
        ensures
            final(self).wf(),
            all_wf(final(self)@),
            final(self)@ == show_all(old(self)@, frame as nat),
            final(self).next_id() == old(self).next_id(),
    {
        let mut out: Vec<(u64, WaterSkill)> = Vec::new();
        let n = self.entries.len();
        let mut i: usize = 0;
        while i < n
            invariant
                self.wf(),
                frame < TOTAL_FRAMES,
                n == self.entries@.len(),
                i <= n,
                out@.len() == i,
                forall|j: int| 0 <= j < i ==> (#[trigger] out@[j]).0 == self.entries@[j].0,
                forall|j: int| 0 <= j < i ==> (#[trigger] out@[j]).1@.wf(),
                entries_map(out@) == show_all(entries_map(self.entries@.take(i as int)), frame as nat),
            decreases n - i,
        {
            let (id, skill) = self.entries[i];
            assert(self.entries@[i as int].1@.wf());
            let mut s = skill;
            s.frame_index = frame;
            let ghost before = entries_map(self.entries@.take(i as int));
            proof {
                lemma_entries_map_push(out@, (id, s));
                lemma_entries_map_push(self.entries@.take(i as int), (id, skill));
                assert(self.entries@.take(i as int).push((id, skill)) =~= self.entries@.take(i + 1));
                assert(show_all(before.insert(id, skill@), frame as nat) =~= show_all(before, frame as nat).insert(id, s@));
            }
            out.push((id, s));
            i = i + 1;
        }
        assert(self.entries@.take(n as int) =~= self.entries@);
        self.entries = out;
        proof {
            self.lemma_wf_view();
        }
    }

    /// One tick with a shared frame: spawn (as `spawn_skill`), step the
    /// shared frame by `dt`, show it on every instance, then reap.
    pub fn step_shared(&mut self, dt: u64, trigger: bool, avatar: Option<Point3>, shared: &mut SharedFrame) -> (r: Option<u64>)
        requires
            old(self).wf(),
            old(shared)@.wf(),
        ensures
            final(self).wf(),
            all_wf(final(self)@),
            final(shared)@ == old(shared)@.animate(dt as nat),
            final(shared)@.wf(),
            r is Some <==> (trigger && old(self).next_id() < u64::MAX && match avatar {
                Some(p) => sum_fits(p, spec_spawn_offset()),
                None => false,
            }),
            r matches Some(id) ==> {
                &&& avatar matches Some(p)
                &&& !old(self)@.dom().contains(id)
                &&& final(self)@ == reap_all(
                    show_all(
                        old(self)@.insert(id, SkillView::fresh(point_sum(p, spec_spawn_offset()))),
                        final(shared)@.frame,
                    ),
                    dt as nat,
                )
            },
            r is None ==> final(self)@ == reap_all(show_all(old(self)@, final(shared)@.frame), dt as nat),
    {
        let r = self.spawn_skill(trigger, avatar);
        shared.animate(dt);
        self.show_frame(shared.frame_index);
        self.despawn_skills(dt);
        r
    }

    /// The instance with identifier `id`, if it is live.
    pub fn get(&self, id: u64) -> (r: Option<WaterSkill>)
        requires
            self.wf(),
        ensures
            r is Some <==> self@.dom().contains(id),
            r matches Some(s) ==> s@ == self@[id],
    {
        let n = self.entries.len();
        let mut i: usize = 0;
        while i < n
            invariant
                self.wf(),
                n == self.entries@.len(),
                i <= n,
                forall|j: int| 0 <= j < i ==> (#[trigger] self.entries@[j]).0 != id,
            decreases n - i,
        {
            if self.entries[i].0 == id {
                proof {
                    lemma_entries_map_at(self.entries@, i as int);
                }
                return Some(self.entries[i].1);
            }
            i = i + 1;
        }
        proof {
            lemma_entries_map_dom(self.entries@, id);
        }
        None
    }

    /// The identifiers of the live instances, in increasing order.
    pub fn ids(&self) -> (r: Vec<u64>)
        requires
            self.wf(),
        ensures
            forall|id: u64| self@.dom().contains(id) <==> #[trigger] r@.contains(id),
            forall|i: int, j: int| 0 <= i < j < r@.len() ==> r@[i] < r@[j],
    {
        let mut out: Vec<u64> = Vec::new();
        let n = self.entries.len();
        let mut i: usize = 0;
        while i < n
            invariant
                self.wf(),
                n == self.entries@.len(),
                i <= n,
                out@.len() == i,
                forall|j: int| 0 <= j < i ==> out@[j] == (#[trigger] self.entries@[j]).0,
            decreases n - i,
        {
            out.push(self.entries[i].0);
            i = i + 1;
        }
        proof {
            assert forall|id: u64| self@.dom().contains(id) <==> #[trigger] out@.contains(id) by {
                lemma_entries_map_dom(self.entries@, id);
                if out@.contains(id) {
                    let j = choose|j: int| 0 <= j < out@.len() && out@[j] == id;
                    assert(self.entries@[j].0 == id);
                }
                if self@.dom().contains(id) {
                    let j = choose|j: int| 0 <= j < self.entries@.len() && (#[trigger] self.entries@[j]).0 == id;
                    assert(out@[j] == id);
                }
            }
            assert forall|i: int, j: int| 0 <= i < j < out@.len() implies out@[i] < out@[j] by {
                assert(self.entries@[i].0 < self.entries@[j].0);
            }
        }
        out
    }

    /// The number of live instances.
    pub fn len(&self) -> (r: usize)
        requires
            self.wf(),
        ensures
            r == self@.dom().len(),
    {
        proof {
            lemma_entries_map_len(self.entries@);
        }
        self.entries.len()
    }
}

proof fn lemma_entries_map_len(s: Seq<(u64, WaterSkill)>)
    requires
        ids_increasing(s),
    ensures
        entries_map(s).dom().finite(),
        entries_map(s).dom().len() == s.len(),
    decreases s.len(),
{
    if s.len() > 0 {
        assert(ids_increasing(s.drop_last()));
        lemma_entries_map_len(s.drop_last());
        lemma_entries_map_dom(s.drop_last(), s.last().0);
        if entries_map(s.drop_last()).dom().contains(s.last().0) {
            let j = choose|j: int| 0 <= j < s.drop_last().len() && (#[trigger] s.drop_last()[j]).0 == s.last().0;
            assert(s[j].0 < s[s.len() - 1].0);
        }
    }
}

/// Ticks never add instances.
proof fn lemma_settle_dom(m: Map<u64, SkillView>, dts: Seq<nat>)
    ensures
        settle(m, dts).dom().subset_of(m.dom()),
    decreases dts.len(),
{
    if dts.len() > 0 {
        lemma_settle_dom(advance_all(m, dts[0]), dts.drop_first());
    }
}

/// An instance whose lifetime has not run out stays live through a run of
/// ticks exactly while its elapsed lifetime plus the deltas stays below the
/// lifetime's duration.
pub proof fn lemma_reaping_exact_from(m: Map<u64, SkillView>, id: u64, dts: Seq<nat>)
    requires
        m.dom().contains(id),
        m[id].wf(),
        !m[id].expired(),
    ensures
        settle(m, dts).dom().contains(id) <==> m[id].lifetime.elapsed + total_time(dts) < m[id].lifetime.duration,
    decreases dts.len(),
{
    if dts.len() > 0 {
        let s = m[id];
        let m1 = advance_all(m, dts[0]);
        let a = s.animate(dts[0]);
        assert(a.lifetime == s.lifetime);
        crate::skill::lemma_animate_frame_valid(s, dts[0]);
        if m1.dom().contains(id) {
            assert(m1[id] == a.age(dts[0]));
            lemma_reaping_exact_from(m1, id, dts.drop_first());
        } else {
            lemma_settle_dom(m1, dts.drop_first());
        }
    }
}

/// An instance created with a fresh lifetime is live after every run of ticks
/// whose deltas total less than the lifetime's duration, and gone after every
/// run whose deltas reach it.
pub proof fn lemma_reaping_exact(m: Map<u64, SkillView>, id: u64, dts: Seq<nat>)
    requires
        m.dom().contains(id),
        m[id].wf(),
        m[id].lifetime.elapsed == 0,
    ensures
        settle(m, dts).dom().contains(id) <==> total_time(dts) < m[id].lifetime.duration,
{
    lemma_reaping_exact_from(m, id, dts);
}

} // verus!
