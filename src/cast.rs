//! Cast correlation: matches cast-begin and cast-end events to the hits that
//! follow them, per (agent, skill).
use vstd::prelude::*;
use crate::event::{
    Activation, CombatEvent, EventKind, is_cast_begin, is_cast_end, is_hit, hit_value, kind_of,
};

verus! {

/// One effect (damage or buff application) of a cast.
#[derive(Debug, Clone, Copy, PartialEq, Eq, Structural)]
pub struct Hit {
    pub time: u64,
    pub target: u64,
    pub value: i32,
    pub kind: EventKind,
}

/// A hit that arrived with no open cast for its (agent, skill).
#[derive(Debug, Clone, Copy, PartialEq, Eq, Structural)]
pub struct UnattributedHit {
    pub agent: u64,
    pub skill: u32,
    pub time: u64,
    pub value: i32,
}

/// A reconstructed skill cast.
#[derive(Debug, Clone)]
pub struct Cast {
    pub skill: u32,
    pub agent: u64,
    pub start: u64,
    /// Time of the terminating event; `None` when the cast was never closed.
    pub end: Option<u64>,
    /// The cast went off: it ended by firing or by completing its animation.
    pub completed: bool,
    pub hits: Vec<Hit>,
}

/// Mathematical form of a `Cast`.
pub struct CastModel {
    pub skill: u32,
    pub agent: u64,
    pub start: u64,
    pub end: Option<u64>,
    pub completed: bool,
    pub hits: Seq<Hit>,
}

impl View for Cast {
    type V = CastModel;

    open spec fn view(&self) -> CastModel {
        CastModel {
            skill: self.skill,
            agent: self.agent,
            start: self.start,
            end: self.end,
            completed: self.completed,
            hits: self.hits@,
        }
    }
}

/// Result of cast correlation.
#[derive(Debug, Clone)]
pub struct Casts {
    pub casts: Vec<Cast>,
    pub hits_without_cast: Vec<UnattributedHit>,
}

/// An entry of the open-cast mapping: the cast of `skill` by `agent` that is still
/// in progress, as an index into the cast arena.
#[derive(Debug, Clone, Copy, PartialEq, Eq, Structural)]
pub struct OpenCast {
    pub agent: u64,
    pub skill: u32,
    pub index: usize,
}

/// State of the correlator after a prefix of the events.
pub struct Correlation {
    /// Every cast opened so far, in order of its begin event.
    pub casts: Seq<CastModel>,
    /// Casts still in progress, at most one per (agent, skill).
    pub open: Seq<OpenCast>,
    pub unattributed: Seq<UnattributedHit>,
}

pub open spec fn empty_correlation() -> Correlation {
    Correlation { casts: Seq::empty(), open: Seq::empty(), unattributed: Seq::empty() }
}

/// Position of the open entry for (agent, skill), or -1.
pub open spec fn find_open(open: Seq<OpenCast>, agent: u64, skill: u32) -> int
    decreases open.len(),
{
    if open.len() == 0 {
        -1
    } else if open.last().agent == agent && open.last().skill == skill {
        open.len() - 1
    } else {
        find_open(open.drop_last(), agent, skill)
    }
}

pub open spec fn hit_of(e: CombatEvent) -> Hit {
    Hit { time: e.time, target: e.dst_agent, value: hit_value(e), kind: kind_of(e) }
}

pub open spec fn unattributed_of(e: CombatEvent) -> UnattributedHit {
    UnattributedHit { agent: e.src_agent, skill: e.skill_id, time: e.time, value: hit_value(e) }
}

pub open spec fn ends_completed(e: CombatEvent) -> bool {
    e.is_activation == Activation::Reset || e.is_activation == Activation::CancelFire
}

/// The event takes part in correlation under the skill filter.
pub open spec fn in_scope(e: CombatEvent, skill: Option<u32>) -> bool {
    match skill {
        Some(k) => e.skill_id == k,
        None => true,
    }
}

/// Effect of one event on the correlator state.
pub open spec fn step(st: Correlation, e: CombatEvent, skill: Option<u32>) -> Correlation {
    let j = find_open(st.open, e.src_agent, e.skill_id);
    if !in_scope(e, skill) {
        st
    } else if is_cast_begin(e) {
        // the newest begin wins: an unterminated earlier cast stays with no end
        let open = if j >= 0 { st.open.remove(j) } else { st.open };
        Correlation {
            casts: st.casts.push(
                CastModel {
                    skill: e.skill_id,
                    agent: e.src_agent,
                    start: e.time,
                    end: None,
                    completed: false,
                    hits: Seq::empty(),
                },
            ),
            open: open.push(
                OpenCast { agent: e.src_agent, skill: e.skill_id, index: st.casts.len() as usize },
            ),
            unattributed: st.unattributed,
        }
    } else if is_cast_end(e) {
        if j >= 0 {
            let idx = st.open[j].index as int;
            let c = st.casts[idx];
            Correlation {
                casts: st.casts.update(
                    idx,
                    CastModel { end: Some(e.time), completed: ends_completed(e), ..c },
                ),
                open: st.open.remove(j),
                unattributed: st.unattributed,
            }
        } else {
            st
        }
    } else if is_hit(e) {
        if j >= 0 {
            let idx = st.open[j].index as int;
            let c = st.casts[idx];
            Correlation {
                casts: st.casts.update(idx, CastModel { hits: c.hits.push(hit_of(e)), ..c }),
                open: st.open,
                unattributed: st.unattributed,
            }
        } else {
            Correlation { unattributed: st.unattributed.push(unattributed_of(e)), ..st }
        }
    } else {
        st
    }
}

/// Correlator state after processing `events` in order.
pub open spec fn correlate(events: Seq<CombatEvent>, skill: Option<u32>) -> Correlation
    decreases events.len(),
{
    if events.len() == 0 {
        empty_correlation()
    } else {
        step(correlate(events.drop_last(), skill), events.last(), skill)
    }
}

/// Number of hits that take part in correlation under the skill filter.
pub open spec fn count_hits(events: Seq<CombatEvent>, skill: Option<u32>) -> nat
    decreases events.len(),
{
    if events.len() == 0 {
        0
    } else {
        count_hits(events.drop_last(), skill) + if in_scope(events.last(), skill) && is_hit(
            events.last(),
        ) {
            1nat
        } else {
            0nat
        }
    }
}

/// Number of hits attached to the casts.
pub open spec fn attached_hits(casts: Seq<CastModel>) -> nat
    decreases casts.len(),
{
    if casts.len() == 0 {
        0
    } else {
        attached_hits(casts.drop_last()) + casts.last().hits.len()
    }
}

proof fn lemma_attached_update(casts: Seq<CastModel>, i: int, c: CastModel)
    requires
        0 <= i < casts.len(),
    ensures
        attached_hits(casts.update(i, c)) == attached_hits(casts) - casts[i].hits.len()
            + c.hits.len(),
    decreases casts.len(),
{
    if i < casts.len() - 1 {
        assert(casts.update(i, c).drop_last() =~= casts.drop_last().update(i, c));
        lemma_attached_update(casts.drop_last(), i, c);
    } else {
        assert(casts.update(i, c).drop_last() =~= casts.drop_last());
    }
}

proof fn lemma_correlate_wf(events: Seq<CombatEvent>, skill: Option<u32>)
    ensures
        correlation_wf(correlate(events, skill)),
    decreases events.len(),
{
    if events.len() > 0 {
        lemma_correlate_wf(events.drop_last(), skill);
        lemma_step_wf(correlate(events.drop_last(), skill), events.last(), skill);
    }
}

/// No hit is lost or duplicated: every hit in scope is either attached to exactly
/// one cast or reported as unattributed.
pub proof fn lemma_coverage(events: Seq<CombatEvent>, skill: Option<u32>)
    ensures
        attached_hits(correlate(events, skill).casts) + correlate(events, skill).unattributed.len()
            == count_hits(events, skill),
    decreases events.len(),
{
    if events.len() > 0 {
        let pre = events.drop_last();
        let e = events.last();
        let st = correlate(pre, skill);
        lemma_coverage(pre, skill);
        lemma_correlate_wf(pre, skill);
        lemma_find_open_bounds(st.open, e.src_agent, e.skill_id);
        let j = find_open(st.open, e.src_agent, e.skill_id);
        if in_scope(e, skill) {
            if is_cast_begin(e) {
                let c = CastModel {
                    skill: e.skill_id,
                    agent: e.src_agent,
                    start: e.time,
                    end: None,
                    completed: false,
                    hits: Seq::empty(),
                };
                assert(st.casts.push(c).drop_last() =~= st.casts);
            } else if is_cast_end(e) {
                if j >= 0 {
                    let idx = st.open[j].index as int;
                    let c = st.casts[idx];
                    lemma_attached_update(
                        st.casts,
                        idx,
                        CastModel { end: Some(e.time), completed: ends_completed(e), ..c },
                    );
                }
            } else if is_hit(e) {
                if j >= 0 {
                    let idx = st.open[j].index as int;
                    let c = st.casts[idx];
                    lemma_attached_update(st.casts, idx, CastModel { hits: c.hits.push(hit_of(e)), ..c });
                }
            }
        }
    }
}

/// Determinism: two results of correlation over the same events and filter are
/// equal, cast for cast and hit for hit.
pub proof fn lemma_correlation_deterministic(
    a: Casts,
    b: Casts,
    events: Seq<CombatEvent>,
    skill: Option<u32>,
)
    requires
        a.matches(correlate(events, skill)),
        b.matches(correlate(events, skill)),
    ensures
        casts_view(a.casts@) == casts_view(b.casts@),
        a.hits_without_cast@ == b.hits_without_cast@,
{
}

/// Every open entry points into the cast arena.
pub open spec fn correlation_wf(st: Correlation) -> bool {
    forall|j: int| 0 <= j < st.open.len() ==> (#[trigger] st.open[j]).index < st.casts.len()
}

pub open spec fn casts_view(casts: Seq<Cast>) -> Seq<CastModel> {
    casts.map_values(|c: Cast| c@)
}

impl Casts {
    pub open spec fn matches(&self, st: Correlation) -> bool {
        &&& casts_view(self.casts@) == st.casts
        &&& self.hits_without_cast@ == st.unattributed
    }
}

fn find_open_exec(open: &Vec<OpenCast>, agent: u64, skill: u32) -> (r: Option<usize>)
    ensures
        match r {
            Some(j) => find_open(open@, agent, skill) == j as int,
            None => find_open(open@, agent, skill) == -1,
        },
        find_open(open@, agent, skill) < open@.len(),
{
    proof {
        lemma_find_open_bounds(open@, agent, skill);
    }
    let mut j: usize = open.len();
    assert(open@.subrange(0, j as int) =~= open@);
    while j > 0
        invariant
            j <= open@.len(),
            find_open(open@, agent, skill) == find_open(open@.subrange(0, j as int), agent, skill),
        decreases j,
    {
        assert(open@.subrange(0, j as int).drop_last() =~= open@.subrange(0, j - 1));
        proof {
            lemma_find_open_bounds(open@.subrange(0, j as int), agent, skill);
        }
        if open[j - 1].agent == agent && open[j - 1].skill == skill {
            return Some(j - 1);
        }
        j = j - 1;
    }
    None
}

proof fn lemma_find_open_bounds(open: Seq<OpenCast>, agent: u64, skill: u32)
    ensures
        -1 <= find_open(open, agent, skill) < open.len(),
        find_open(open, agent, skill) >= 0 ==> open[find_open(open, agent, skill)].agent == agent
            && open[find_open(open, agent, skill)].skill == skill,
    decreases open.len(),
{
    if open.len() > 0 {
        lemma_find_open_bounds(open.drop_last(), agent, skill);
    }
}

proof fn lemma_step_wf(st: Correlation, e: CombatEvent, skill: Option<u32>)
    requires
        correlation_wf(st),
    ensures
        correlation_wf(step(st, e, skill)),
        step(st, e, skill).casts.len() >= st.casts.len(),
        step(st, e, skill).casts.len() <= st.casts.len() + 1,
{
    lemma_find_open_bounds(st.open, e.src_agent, e.skill_id);
    let j = find_open(st.open, e.src_agent, e.skill_id);
    let s2 = step(st, e, skill);
    if in_scope(e, skill) && is_cast_begin(e) {
        let open = if j >= 0 { st.open.remove(j) } else { st.open };
        assert forall|k: int| 0 <= k < s2.open.len() implies (#[trigger] s2.open[k]).index
            < s2.casts.len() by {
            if k < open.len() {
                if j >= 0 {
                    if k >= j {
                        assert(open[k] == st.open[k + 1]);
                    }
                }
            }
        }
    } else if in_scope(e, skill) && is_cast_end(e) && j >= 0 {
        assert forall|k: int| 0 <= k < s2.open.len() implies (#[trigger] s2.open[k]).index
            < s2.casts.len() by {
            if k >= j {
                assert(s2.open[k] == st.open[k + 1]);
            }
        }
    }
}

/// Correlates casts with their hits over `events`, processed in order. With a
/// skill filter only events of that skill take part.
pub fn extract_casts(events: &Vec<CombatEvent>, skill: Option<u32>) -> (r: Casts)
    ensures
        r.matches(correlate(events@, skill)),
{
    let mut casts: Vec<Cast> = Vec::new();
    let mut open: Vec<OpenCast> = Vec::new();
    let mut hits_without_cast: Vec<UnattributedHit> = Vec::new();
    let mut i: usize = 0;
    while i < events.len()
        invariant
            i <= events@.len(),
            casts@.len() <= i,
            correlation_wf(correlate(events@.subrange(0, i as int), skill)),
            casts_view(casts@) == correlate(events@.subrange(0, i as int), skill).casts,
            open@ == correlate(events@.subrange(0, i as int), skill).open,
            hits_without_cast@ == correlate(events@.subrange(0, i as int), skill).unattributed,
        decreases events@.len() - i,
    {
        let ghost prefix = events@.subrange(0, i as int);
        let ghost st = correlate(prefix, skill);
        let e = events[i];
        assert(events@.subrange(0, i + 1).drop_last() =~= prefix);
        assert(events@.subrange(0, i + 1).last() == e);
        proof {
            lemma_step_wf(st, e, skill);
            lemma_find_open_bounds(st.open, e.src_agent, e.skill_id);
        }
        let in_scope = match skill {
            Some(k) => e.skill_id == k,
            None => true,
        };
        if in_scope {
            let j = find_open_exec(&open, e.src_agent, e.skill_id);
            if e.is_cast_begin() {
                match j {
                    Some(j) => {
                        open.remove(j);
                    },
                    None => {},
                }
                let index = casts.len();
                casts.push(
                    Cast {
                        skill: e.skill_id,
                        agent: e.src_agent,
                        start: e.time,
                        end: None,
                        completed: false,
                        hits: Vec::new(),
                    },
                );
                open.push(OpenCast { agent: e.src_agent, skill: e.skill_id, index });
                assert(casts_view(casts@) =~= correlate(events@.subrange(0, i + 1), skill).casts);
            } else if e.is_cast_end() {
                match j {
                    Some(j) => {
                        let idx = open[j].index;
                        casts[idx].end = Some(e.time);
                        casts[idx].completed = e.is_activation == Activation::Reset
                            || e.is_activation == Activation::CancelFire;
                        open.remove(j);
                        assert(casts_view(casts@) =~= correlate(
                            events@.subrange(0, i + 1),
                            skill,
                        ).casts);
                    },
                    None => {},
                }
            } else if e.is_hit() {
                match j {
                    Some(j) => {
                        let idx = open[j].index;
                        let hit = Hit {
                            time: e.time,
                            target: e.dst_agent,
                            value: e.hit_value(),
                            kind: e.kind(),
                        };
                        casts[idx].hits.push(hit);
                        assert(casts_view(casts@) =~= correlate(
                            events@.subrange(0, i + 1),
                            skill,
                        ).casts);
                    },
                    None => {
                        hits_without_cast.push(
                            UnattributedHit {
                                agent: e.src_agent,
                                skill: e.skill_id,
                                time: e.time,
                                value: e.hit_value(),
                            },
                        );
                    },
                }
            }
        }
        i = i + 1;
    }
    assert(events@.subrange(0, events@.len() as int) =~= events@);
    Casts { casts, hits_without_cast }
}

} // verus!
