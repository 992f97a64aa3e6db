//! Weapon-set timeline: intervals between an agent's weapon swaps, and the
//! classification of direct-damage hits by the set equipped at their time.
use vstd::prelude::*;
use crate::cast::{Hit, hit_of};
use crate::event::{CombatEvent, EventKind, StateChange, kind_of};

verus! {

/// A weapon configuration of an agent.
#[derive(Debug, Clone, Copy, PartialEq, Eq, Structural)]
pub enum WeaponSet {
    /// Not known: before any swap without a known loadout, or outside every interval.
    Unknown,
    Water1,
    Water2,
    Land1,
    Land2,
    /// A bundle, kit or transform, by its identifier.
    Other(u64),
}

/// The weapon set that a swap event names in its destination field.
pub open spec fn weapon_set_of(id: u64) -> WeaponSet {
    if id == 0 {
        WeaponSet::Water1
    } else if id == 1 {
        WeaponSet::Water2
    } else if id == 4 {
        WeaponSet::Land1
    } else if id == 5 {
        WeaponSet::Land2
    } else {
        WeaponSet::Other(id)
    }
}

impl WeaponSet {
    pub fn from_id(id: u64) -> (r: WeaponSet)
        ensures
            r == weapon_set_of(id),
    {
        if id == 0 {
            WeaponSet::Water1
        } else if id == 1 {
            WeaponSet::Water2
        } else if id == 4 {
            WeaponSet::Land1
        } else if id == 5 {
            WeaponSet::Land2
        } else {
            WeaponSet::Other(id)
        }
    }
}

/// The span `[start, end)` during which `set` was equipped; an interval with no
/// end lasts to the end of the log.
#[derive(Debug, Clone, Copy, PartialEq, Eq, Structural)]
pub struct WeaponInterval {
    pub set: WeaponSet,
    pub start: u64,
    pub end: Option<u64>,
}

pub open spec fn contains(iv: WeaponInterval, t: u64) -> bool {
    iv.start <= t && match iv.end {
        Some(e) => t < e,
        None => true,
    }
}

/// Each interval ends where the next one starts.
pub open spec fn contiguous(iv: Seq<WeaponInterval>) -> bool {
    forall|i: int| 0 <= i < iv.len() - 1 ==> (#[trigger] iv[i]).end == Some(iv[i + 1].start)
}

/// Interval starts strictly increase.
pub open spec fn starts_increasing(iv: Seq<WeaponInterval>) -> bool {
    forall|i: int, j: int| 0 <= i < j < iv.len() ==> (#[trigger] iv[i]).start < (#[trigger] iv[j]).start
}

/// A timeline from `start` on: contiguous, ordered, and open at its end.
pub open spec fn timeline_wf(iv: Seq<WeaponInterval>, start: u64) -> bool {
    &&& iv.len() > 0
    &&& iv[0].start == start
    &&& contiguous(iv)
    &&& starts_increasing(iv)
    &&& iv.last().end is None
}

/// A weapon swap of the agent.
pub open spec fn is_swap(e: CombatEvent, agent: u64) -> bool {
    e.is_statechange == StateChange::WeaponSwap && e.src_agent == agent
}

/// Effect of one event on the agent's timeline: a swap closes the current interval
/// and opens one with the new set, or, at the current interval's own start time or
/// before, replaces its set.
pub open spec fn timeline_step(iv: Seq<WeaponInterval>, e: CombatEvent, agent: u64) -> Seq<
    WeaponInterval,
> {
    if !is_swap(e, agent) || iv.len() == 0 {
        iv
    } else {
        let last = iv.last();
        let set = weapon_set_of(e.dst_agent);
        if e.time <= last.start {
            iv.update(iv.len() - 1, WeaponInterval { set, ..last })
        } else {
            iv.update(iv.len() - 1, WeaponInterval { end: Some(e.time), ..last }).push(
                WeaponInterval { set, start: e.time, end: None },
            )
        }
    }
}

/// The agent's timeline over `events`, starting at `start` with set `initial`.
pub open spec fn timeline(events: Seq<CombatEvent>, agent: u64, start: u64, initial: WeaponSet) -> Seq<
    WeaponInterval,
>
    decreases events.len(),
{
    if events.len() == 0 {
        seq![WeaponInterval { set: initial, start, end: None }]
    } else {
        timeline_step(timeline(events.drop_last(), agent, start, initial), events.last(), agent)
    }
}

proof fn lemma_timeline_wf(events: Seq<CombatEvent>, agent: u64, start: u64, initial: WeaponSet)
    ensures
        timeline_wf(timeline(events, agent, start, initial), start),
        timeline(events, agent, start, initial).len() <= events.len() + 1,
    decreases events.len(),
{
    if events.len() > 0 {
        lemma_timeline_wf(events.drop_last(), agent, start, initial);
        let iv = timeline(events.drop_last(), agent, start, initial);
        let r = timeline(events, agent, start, initial);
        let e = events.last();
        if is_swap(e, agent) && e.time > iv.last().start {
            assert forall|i: int, j: int| 0 <= i < j < r.len() implies (#[trigger] r[i]).start
                < (#[trigger] r[j]).start by {
                if j == r.len() - 1 && i < iv.len() - 1 {
                    assert(iv[i].start < iv[iv.len() - 1].start);
                }
            }
        }
    }
}

/// Builds the agent's weapon-set timeline from its swap events, starting at
/// `start` with the set `initial`.
pub fn build_timeline(events: &Vec<CombatEvent>, agent: u64, start: u64, initial: WeaponSet) -> (r:
    Vec<WeaponInterval>)
    ensures
        r@ == timeline(events@, agent, start, initial),
        timeline_wf(r@, start),
{
    let mut iv: Vec<WeaponInterval> = Vec::new();
    iv.push(WeaponInterval { set: initial, start, end: None });
    let mut i: usize = 0;
    assert(events@.subrange(0, 0) =~= Seq::<CombatEvent>::empty());
    while i < events.len()
        invariant
            i <= events@.len(),
            iv@ == timeline(events@.subrange(0, i as int), agent, start, initial),
            timeline_wf(iv@, start),
        decreases events@.len() - i,
    {
        let ghost pre = events@.subrange(0, i as int);
        assert(events@.subrange(0, i + 1).drop_last() =~= pre);
        proof {
            lemma_timeline_wf(events@.subrange(0, i + 1), agent, start, initial);
        }
        let e = events[i];
        if e.is_statechange == StateChange::WeaponSwap && e.src_agent == agent {
            let n = iv.len();
            let last = iv[n - 1];
            let set = WeaponSet::from_id(e.dst_agent);
            if e.time <= last.start {
                iv.set(n - 1, WeaponInterval { set, ..last });
            } else {
                iv.set(n - 1, WeaponInterval { end: Some(e.time), ..last });
                iv.push(WeaponInterval { set, start: e.time, end: None });
            }
        }
        i = i + 1;
    }
    assert(events@.subrange(0, events@.len() as int) =~= events@);
    iv
}

/// Finds the interval that contains `t`, by binary search over the starts.
pub fn find_interval(iv: &Vec<WeaponInterval>, t: u64) -> (r: Option<usize>)
    requires
        iv@.len() > 0,
        contiguous(iv@),
        starts_increasing(iv@),
        iv@.last().end is None,
    ensures
        match r {
            Some(i) => i < iv@.len() && contains(iv@[i as int], t),
            None => forall|i: int| 0 <= i < iv@.len() ==> !contains(#[trigger] iv@[i], t),
        },
        r is None <==> t < iv@[0].start,
{
    let mut lo: usize = 0;
    let mut hi: usize = iv.len();
    while lo < hi
        invariant
            0 <= lo <= hi <= iv@.len(),
            starts_increasing(iv@),
            forall|k: int| 0 <= k < lo ==> (#[trigger] iv@[k]).start <= t,
            forall|k: int| hi <= k < iv@.len() ==> (#[trigger] iv@[k]).start > t,
        decreases hi - lo,
    {
        let mid = lo + (hi - lo) / 2;
        if iv[mid].start <= t {
            lo = mid + 1;
        } else {
            hi = mid;
        }
    }
    if lo == 0 {
        assert forall|i: int| 0 <= i < iv@.len() implies !contains(#[trigger] iv@[i], t) by {
            assert(iv@[i].start > t);
        }
        None
    } else {
        let i = lo - 1;
        if lo < iv.len() {
            assert(iv@[i as int].end == Some(iv@[i + 1].start));
        }
        assert(iv@[0].start <= t);
        Some(i)
    }
}

/// Set of the last interval that contains `t`; `Unknown` when none does.
pub open spec fn set_at(iv: Seq<WeaponInterval>, t: u64) -> WeaponSet
    decreases iv.len(),
{
    if iv.len() == 0 {
        WeaponSet::Unknown
    } else if contains(iv.last(), t) {
        iv.last().set
    } else {
        set_at(iv.drop_last(), t)
    }
}

proof fn lemma_set_at(iv: Seq<WeaponInterval>, t: u64, i: int)
    requires
        0 <= i < iv.len(),
        contains(iv[i], t),
        contiguous(iv),
        starts_increasing(iv),
    ensures
        set_at(iv, t) == iv[i].set,
    decreases iv.len(),
{
    if i < iv.len() - 1 {
        let n = iv.len() - 1;
        if i + 1 < n {
            assert(iv[i + 1].start < iv[n].start);
        }
        assert(iv[i].end == Some(iv[i + 1].start));
        assert(!contains(iv.last(), t));
        let d = iv.drop_last();
        assert forall|a: int| 0 <= a < d.len() - 1 implies (#[trigger] d[a]).end == Some(
            d[a + 1].start,
        ) by {
            assert(iv[a].end == Some(iv[a + 1].start));
        }
        lemma_set_at(d, t, i);
    }
}

proof fn lemma_set_at_none(iv: Seq<WeaponInterval>, t: u64)
    requires
        forall|i: int| 0 <= i < iv.len() ==> !contains(#[trigger] iv[i], t),
    ensures
        set_at(iv, t) == WeaponSet::Unknown,
    decreases iv.len(),
{
    if iv.len() > 0 {
        assert(!contains(iv[iv.len() - 1], t));
        lemma_set_at_none(iv.drop_last(), t);
    }
}

/// Every moment from the timeline's start on lies in exactly one interval.
pub proof fn lemma_timeline_coverage(
    events: Seq<CombatEvent>,
    agent: u64,
    start: u64,
    initial: WeaponSet,
    t: u64,
)
    requires
        start <= t,
    ensures
        ({
            let iv = timeline(events, agent, start, initial);
            &&& iv[0].start == start
            &&& iv.last().end is None
            &&& contiguous(iv)
            &&& exists|i: int| 0 <= i < iv.len() && contains(#[trigger] iv[i], t)
            &&& forall|i: int, j: int|
                0 <= i < iv.len() && 0 <= j < iv.len() && contains(#[trigger] iv[i], t)
                    && contains(#[trigger] iv[j], t) ==> i == j
        }),
{
    lemma_timeline_wf(events, agent, start, initial);
    let iv = timeline(events, agent, start, initial);
    let n = iv.len();
    assert forall|i: int, j: int|
        0 <= i < n && 0 <= j < n && contains(#[trigger] iv[i], t) && contains(
            #[trigger] iv[j],
            t,
        ) implies i == j by {
        if i < j {
            assert(iv[i].end == Some(iv[i + 1].start));
            if i + 1 < j {
                assert(iv[i + 1].start < iv[j].start);
            }
        } else if j < i {
            assert(iv[j].end == Some(iv[j + 1].start));
            if j + 1 < i {
                assert(iv[j + 1].start < iv[i].start);
            }
        }
    }
    // the last interval whose start is at most t contains t
    lemma_exists_containing(iv, t, n - 1);
}

proof fn lemma_exists_containing(iv: Seq<WeaponInterval>, t: u64, k: int)
    requires
        0 <= k < iv.len(),
        iv[0].start <= t,
        contiguous(iv),
        iv.last().end is None,
        forall|j: int| k < j < iv.len() ==> (#[trigger] iv[j]).start > t,
    ensures
        exists|i: int| 0 <= i < iv.len() && contains(#[trigger] iv[i], t),
    decreases k,
{
    if iv[k].start <= t {
        if k < iv.len() - 1 {
            assert(iv[k].end == Some(iv[k + 1].start));
        }
        assert(contains(iv[k], t));
    } else {
        lemma_exists_containing(iv, t, k - 1);
    }
}

/// Hits of one weapon set.
#[derive(Debug, Clone)]
pub struct WeaponHits {
    pub set: WeaponSet,
    pub hits: Vec<Hit>,
}

pub struct WeaponHitsModel {
    pub set: WeaponSet,
    pub hits: Seq<Hit>,
}

impl View for WeaponHits {
    type V = WeaponHitsModel;

    open spec fn view(&self) -> WeaponHitsModel {
        WeaponHitsModel { set: self.set, hits: self.hits@ }
    }
}

pub open spec fn groups_view(g: Seq<WeaponHits>) -> Seq<WeaponHitsModel> {
    g.map_values(|w: WeaponHits| w@)
}

/// Position of the group of `set`, or -1.
pub open spec fn find_group(g: Seq<WeaponHitsModel>, set: WeaponSet) -> int
    decreases g.len(),
{
    if g.len() == 0 {
        -1
    } else if g.last().set == set {
        g.len() - 1
    } else {
        find_group(g.drop_last(), set)
    }
}

proof fn lemma_find_group_bounds(g: Seq<WeaponHitsModel>, set: WeaponSet)
    ensures
        -1 <= find_group(g, set) < g.len(),
        find_group(g, set) >= 0 ==> g[find_group(g, set)].set == set,
    decreases g.len(),
{
    if g.len() > 0 {
        lemma_find_group_bounds(g.drop_last(), set);
    }
}

/// A direct-damage hit by the agent.
pub open spec fn is_direct_hit(e: CombatEvent, agent: u64) -> bool {
    kind_of(e) == EventKind::DirectDamage && e.src_agent == agent
}

/// Adds a hit to the group of `set`, opening the group at the end if it is new.
pub open spec fn add_to_group(g: Seq<WeaponHitsModel>, set: WeaponSet, h: Hit) -> Seq<
    WeaponHitsModel,
> {
    let j = find_group(g, set);
    if j >= 0 {
        g.update(j, WeaponHitsModel { set, hits: g[j].hits.push(h) })
    } else {
        g.push(WeaponHitsModel { set, hits: seq![h] })
    }
}

/// The agent's direct-damage hits in `events`, grouped by the set of the interval
/// of `iv` that holds each; groups in order of first hit, hits in event order.
pub open spec fn hit_map(events: Seq<CombatEvent>, agent: u64, iv: Seq<WeaponInterval>) -> Seq<
    WeaponHitsModel,
>
    decreases events.len(),
{
    if events.len() == 0 {
        Seq::empty()
    } else {
        let g = hit_map(events.drop_last(), agent, iv);
        let e = events.last();
        if is_direct_hit(e, agent) {
            add_to_group(g, set_at(iv, e.time), hit_of(e))
        } else {
            g
        }
    }
}

fn find_group_exec(g: &Vec<WeaponHits>, set: WeaponSet) -> (r: Option<usize>)
    ensures
        match r {
            Some(j) => find_group(groups_view(g@), set) == j as int && j < g@.len(),
            None => find_group(groups_view(g@), set) == -1,
        },
{
    let ghost gv = groups_view(g@);
    let mut j: usize = g.len();
    assert(gv.subrange(0, j as int) =~= gv);
    while j > 0
        invariant
            j <= g@.len(),
            gv == groups_view(g@),
            find_group(gv, set) == find_group(gv.subrange(0, j as int), set),
        decreases j,
    {
        assert(gv.subrange(0, j as int).drop_last() =~= gv.subrange(0, j - 1));
        if g[j - 1].set == set {
            return Some(j - 1);
        }
        j = j - 1;
    }
    None
}

/// The set equipped at `t`: that of the interval containing it, else `Unknown`.
pub(crate) fn set_for(iv: &Vec<WeaponInterval>, t: u64) -> (r: WeaponSet)
    requires
        iv@.len() > 0,
        contiguous(iv@),
        starts_increasing(iv@),
        iv@.last().end is None,
    ensures
        r == set_at(iv@, t),
{
    match find_interval(iv, t) {
        Some(k) => {
            proof {
                lemma_set_at(iv@, t, k as int);
            }
            iv[k].set
        },
        None => {
            proof {
                lemma_set_at_none(iv@, t);
            }
            WeaponSet::Unknown
        },
    }
}

fn add_hit(groups: &mut Vec<WeaponHits>, set: WeaponSet, hit: Hit)
    ensures
        groups_view(final(groups)@) == add_to_group(groups_view(old(groups)@), set, hit),
{
    let ghost gv = groups_view(groups@);
    proof {
        lemma_find_group_bounds(gv, set);
    }
    match find_group_exec(groups, set) {
        Some(j) => {
            groups[j].hits.push(hit);
        },
        None => {
            let mut hits: Vec<Hit> = Vec::new();
            hits.push(hit);
            groups.push(WeaponHits { set, hits });
        },
    }
    assert(groups_view(groups@) =~= add_to_group(gv, set, hit));
}

/// Groups the agent's direct-damage hits by the weapon set equipped at their time,
/// over the timeline built from `start` and `initial`.
pub fn map_hits_to_set(events: &Vec<CombatEvent>, agent: u64, start: u64, initial: WeaponSet) -> (r:
    Vec<WeaponHits>)
    ensures
        groups_view(r@) == hit_map(events@, agent, timeline(events@, agent, start, initial)),
{
    let iv = build_timeline(events, agent, start, initial);
    let mut groups: Vec<WeaponHits> = Vec::new();
    let mut i: usize = 0;
    while i < events.len()
        invariant
            i <= events@.len(),
            timeline_wf(iv@, start),
            iv@ == timeline(events@, agent, start, initial),
            groups_view(groups@) == hit_map(events@.subrange(0, i as int), agent, iv@),
        decreases events@.len() - i,
    {
        assert(events@.subrange(0, i + 1).drop_last() =~= events@.subrange(0, i as int));
        let e = events[i];
        if e.kind() == EventKind::DirectDamage && e.src_agent == agent {
            let set = set_for(&iv, e.time);
            let hit = Hit { time: e.time, target: e.dst_agent, value: e.hit_value(), kind: e.kind() };
            add_hit(&mut groups, set, hit);
        }
        i = i + 1;
    }
    assert(events@.subrange(0, events@.len() as int) =~= events@);
    groups
}

} // verus!
