//! Skill catalog: per-skill statistics over the event stream, in order of first
//! appearance.
use vstd::prelude::*;
use crate::event::{CombatEvent, EventKind, is_cast_begin, is_hit, kind_of};

verus! {

/// Statistics of one skill.
#[derive(Debug, Clone, Copy, PartialEq, Eq, Structural)]
pub struct SkillStats {
    pub id: u32,
    /// Events of the skill, statechanges aside.
    pub count: u64,
    /// Cast-begin events of the skill.
    pub casts: u64,
    /// Damage and buff-application events of the skill.
    pub hits: u64,
    /// The skill appeared as a buff.
    pub is_buff: bool,
}

/// The event counts towards the catalog under the skill filter.
pub open spec fn in_catalog(e: CombatEvent, skill: Option<u32>) -> bool {
    kind_of(e) != EventKind::StateChange && match skill {
        Some(k) => e.skill_id == k,
        None => true,
    }
}

/// Position of the entry of `id`, or -1.
pub open spec fn find_entry(c: Seq<SkillStats>, id: u32) -> int
    decreases c.len(),
{
    if c.len() == 0 {
        -1
    } else if c.last().id == id {
        c.len() - 1
    } else {
        find_entry(c.drop_last(), id)
    }
}

/// An entry updated with one more event.
pub open spec fn count_event(s: SkillStats, e: CombatEvent) -> SkillStats {
    SkillStats {
        id: s.id,
        count: (s.count + 1) as u64,
        casts: if is_cast_begin(e) { (s.casts + 1) as u64 } else { s.casts },
        hits: if is_hit(e) { (s.hits + 1) as u64 } else { s.hits },
        is_buff: s.is_buff || e.is_buff,
    }
}

pub open spec fn new_entry(id: u32) -> SkillStats {
    SkillStats { id, count: 0, casts: 0, hits: 0, is_buff: false }
}

/// The catalog after `events`: one entry per skill, in order of first appearance.
pub open spec fn catalog(events: Seq<CombatEvent>, skill: Option<u32>) -> Seq<SkillStats>
    decreases events.len(),
{
    if events.len() == 0 {
        Seq::empty()
    } else {
        let c = catalog(events.drop_last(), skill);
        let e = events.last();
        if !in_catalog(e, skill) {
            c
        } else {
            let j = find_entry(c, e.skill_id);
            if j >= 0 {
                c.update(j, count_event(c[j], e))
            } else {
                c.push(count_event(new_entry(e.skill_id), e))
            }
        }
    }
}

proof fn lemma_find_entry(c: Seq<SkillStats>, id: u32)
    ensures
        -1 <= find_entry(c, id) < c.len(),
        find_entry(c, id) >= 0 ==> c[find_entry(c, id)].id == id,
    decreases c.len(),
{
    if c.len() > 0 {
        lemma_find_entry(c.drop_last(), id);
    }
}

pub open spec fn entry_bounded(s: SkillStats, n: int) -> bool {
    s.count <= n && s.casts <= s.count && s.hits <= s.count
}

proof fn lemma_catalog_bounds(events: Seq<CombatEvent>, skill: Option<u32>)
    requires
        events.len() <= u64::MAX,
    ensures
        forall|k: int|
            0 <= k < catalog(events, skill).len() ==> entry_bounded(
                #[trigger] catalog(events, skill)[k],
                events.len() as int,
            ),
    decreases events.len(),
{
    if events.len() > 0 {
        let pre = events.drop_last();
        let c = catalog(pre, skill);
        lemma_catalog_bounds(pre, skill);
        lemma_find_entry(c, events.last().skill_id);
        let r = catalog(events, skill);
        assert forall|k: int| 0 <= k < r.len() implies entry_bounded(
            #[trigger] r[k],
            events.len() as int,
        ) by {
            if k < c.len() {
                assert(entry_bounded(c[k], pre.len() as int));
            }
        }
    }
}

fn find_entry_exec(c: &Vec<SkillStats>, id: u32) -> (r: Option<usize>)
    ensures
        match r {
            Some(j) => find_entry(c@, id) == j as int && j < c@.len(),
            None => find_entry(c@, id) == -1,
        },
{
    let mut j: usize = c.len();
    assert(c@.subrange(0, j as int) =~= c@);
    while j > 0
        invariant
            j <= c@.len(),
            find_entry(c@, id) == find_entry(c@.subrange(0, j as int), id),
        decreases j,
    {
        assert(c@.subrange(0, j as int).drop_last() =~= c@.subrange(0, j - 1));
        if c[j - 1].id == id {
            return Some(j - 1);
        }
        j = j - 1;
    }
    None
}

/// Builds the skill catalog; with a filter, of that skill alone.
pub fn extract_skills(events: &Vec<CombatEvent>, skill: Option<u32>) -> (r: Vec<SkillStats>)
    ensures
        r@ == catalog(events@, skill),
{
    let mut out: Vec<SkillStats> = Vec::new();
    let mut i: usize = 0;
    while i < events.len()
        invariant
            i <= events@.len(),
            out@ == catalog(events@.subrange(0, i as int), skill),
        decreases events@.len() - i,
    {
        let ghost pre = events@.subrange(0, i as int);
        assert(events@.subrange(0, i + 1).drop_last() =~= pre);
        proof {
            lemma_catalog_bounds(pre, skill);
            lemma_find_entry(out@, events@[i as int].skill_id);
        }
        let e = events[i];
        let counted = e.kind() != EventKind::StateChange && match skill {
            Some(k) => e.skill_id == k,
            None => true,
        };
        if counted {
            let begin = e.is_cast_begin();
            let hit = e.is_hit();
            match find_entry_exec(&out, e.skill_id) {
                Some(j) => {
                    let s = out[j];
                    assert(entry_bounded(out@[j as int], i as int));
                    let n = SkillStats {
                        id: s.id,
                        count: s.count + 1,
                        casts: if begin { s.casts + 1 } else { s.casts },
                        hits: if hit { s.hits + 1 } else { s.hits },
                        is_buff: s.is_buff || e.is_buff,
                    };
                    out.set(j, n);
                },
                None => {
                    out.push(
                        SkillStats {
                            id: e.skill_id,
                            count: 1,
                            casts: if begin { 1 } else { 0 },
                            hits: if hit { 1 } else { 0 },
                            is_buff: e.is_buff,
                        },
                    );
                },
            }
        }
        i = i + 1;
    }
    assert(events@.subrange(0, events@.len() as int) =~= events@);
    out
}

} // verus!
