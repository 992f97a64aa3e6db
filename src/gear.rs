//! Gear reconstruction for the point-of-view agent, from the buffs that its rune
//! and sigils apply.
use vstd::prelude::*;
use crate::event::{CombatEvent, EventKind, kind_of};
use crate::weapons::{
    WeaponInterval, WeaponSet, contiguous, set_at, starts_increasing, timeline, timeline_wf,
};

verus! {

/// Kind of upgrade component that a gear buff comes from.
#[derive(Debug, Clone, Copy, PartialEq, Eq, Structural)]
pub enum UpgradeKind {
    Rune,
    Sigil,
}

/// A buff known to come from an upgrade component.
#[derive(Debug, Clone, Copy, PartialEq, Eq, Structural)]
pub struct GearSource {
    pub skill: u32,
    pub kind: UpgradeKind,
}

/// How often a gear buff was applied to the agent.
#[derive(Debug, Clone, Copy, PartialEq, Eq, Structural)]
pub struct GearBuff {
    pub skill: u32,
    pub count: u64,
}

/// The sigils seen while one weapon set was equipped.
#[derive(Debug, Clone)]
pub struct SetSigils {
    pub set: WeaponSet,
    pub sigils: Vec<u32>,
}

pub struct SetSigilsModel {
    pub set: WeaponSet,
    pub sigils: Seq<u32>,
}

impl View for SetSigils {
    type V = SetSigilsModel;

    open spec fn view(&self) -> SetSigilsModel {
        SetSigilsModel { set: self.set, sigils: self.sigils@ }
    }
}

/// Reconstructed gear of the agent.
#[derive(Debug, Clone)]
pub struct GearInfo {
    /// Gear buffs in order of first application, with their counts.
    pub buffs: Vec<GearBuff>,
    /// Rune buffs seen, in order of first application.
    pub runes: Vec<u32>,
    /// Sigil buffs per weapon set, sets in order of first sigil.
    pub sigils: Vec<SetSigils>,
}

pub struct GearModel {
    pub buffs: Seq<GearBuff>,
    pub runes: Seq<u32>,
    pub sigils: Seq<SetSigilsModel>,
}

pub open spec fn sigils_view(s: Seq<SetSigils>) -> Seq<SetSigilsModel> {
    s.map_values(|x: SetSigils| x@)
}

impl GearInfo {
    pub open spec fn model(&self) -> GearModel {
        GearModel { buffs: self.buffs@, runes: self.runes@, sigils: sigils_view(self.sigils@) }
    }
}

/// The upgrade kind of the first source of `skill`, if any.
pub open spec fn source_of(sources: Seq<GearSource>, skill: u32) -> Option<UpgradeKind>
    decreases sources.len(),
{
    if sources.len() == 0 {
        None
    } else if sources[0].skill == skill {
        Some(sources[0].kind)
    } else {
        source_of(sources.subrange(1, sources.len() as int), skill)
    }
}

/// Position of the buff entry of `skill`, or -1.
pub open spec fn find_buff(b: Seq<GearBuff>, skill: u32) -> int
    decreases b.len(),
{
    if b.len() == 0 {
        -1
    } else if b.last().skill == skill {
        b.len() - 1
    } else {
        find_buff(b.drop_last(), skill)
    }
}

/// Position of the sigil group of `set`, or -1.
pub open spec fn find_set(s: Seq<SetSigilsModel>, set: WeaponSet) -> int
    decreases s.len(),
{
    if s.len() == 0 {
        -1
    } else if s.last().set == set {
        s.len() - 1
    } else {
        find_set(s.drop_last(), set)
    }
}

pub open spec fn add_once(s: Seq<u32>, x: u32) -> Seq<u32> {
    if s.contains(x) {
        s
    } else {
        s.push(x)
    }
}

pub open spec fn add_buff(b: Seq<GearBuff>, skill: u32) -> Seq<GearBuff> {
    let j = find_buff(b, skill);
    if j >= 0 {
        b.update(j, GearBuff { skill, count: (b[j].count + 1) as u64 })
    } else {
        b.push(GearBuff { skill, count: 1 })
    }
}

/// Records a sigil under a set; a sigil seen while the set is unknown cannot be
/// attributed and is left out.
pub open spec fn add_sigil(s: Seq<SetSigilsModel>, set: WeaponSet, skill: u32) -> Seq<
    SetSigilsModel,
> {
    let j = find_set(s, set);
    if set == WeaponSet::Unknown {
        s
    } else if j >= 0 {
        s.update(j, SetSigilsModel { set, sigils: add_once(s[j].sigils, skill) })
    } else {
        s.push(SetSigilsModel { set, sigils: seq![skill] })
    }
}

/// A buff application to the agent by an upgrade component.
pub open spec fn is_gear_apply(e: CombatEvent, pov: u64, sources: Seq<GearSource>) -> bool {
    kind_of(e) == EventKind::BuffApply && e.dst_agent == pov && source_of(sources, e.skill_id)
        is Some
}

/// Effect of one event on the gear seen so far.
pub open spec fn gear_step(
    g: GearModel,
    e: CombatEvent,
    pov: u64,
    sources: Seq<GearSource>,
    iv: Seq<WeaponInterval>,
) -> GearModel {
    if !is_gear_apply(e, pov, sources) {
        g
    } else if source_of(sources, e.skill_id) == Some(UpgradeKind::Rune) {
        GearModel {
            buffs: add_buff(g.buffs, e.skill_id),
            runes: add_once(g.runes, e.skill_id),
            sigils: g.sigils,
        }
    } else {
        GearModel {
            buffs: add_buff(g.buffs, e.skill_id),
            runes: g.runes,
            sigils: add_sigil(g.sigils, set_at(iv, e.time), e.skill_id),
        }
    }
}

/// The gear seen in `events`, with sigils keyed by the set of `iv` at their time.
pub open spec fn gear(
    events: Seq<CombatEvent>,
    pov: u64,
    sources: Seq<GearSource>,
    iv: Seq<WeaponInterval>,
) -> GearModel
    decreases events.len(),
{
    if events.len() == 0 {
        GearModel { buffs: Seq::empty(), runes: Seq::empty(), sigils: Seq::empty() }
    } else {
        gear_step(gear(events.drop_last(), pov, sources, iv), events.last(), pov, sources, iv)
    }
}

proof fn lemma_find_buff(b: Seq<GearBuff>, skill: u32)
    ensures
        -1 <= find_buff(b, skill) < b.len(),
        find_buff(b, skill) >= 0 ==> b[find_buff(b, skill)].skill == skill,
    decreases b.len(),
{
    if b.len() > 0 {
        lemma_find_buff(b.drop_last(), skill);
    }
}

proof fn lemma_find_set(s: Seq<SetSigilsModel>, set: WeaponSet)
    ensures
        -1 <= find_set(s, set) < s.len(),
        find_set(s, set) >= 0 ==> s[find_set(s, set)].set == set,
    decreases s.len(),
{
    if s.len() > 0 {
        lemma_find_set(s.drop_last(), set);
    }
}

proof fn lemma_gear_counts(
    events: Seq<CombatEvent>,
    pov: u64,
    sources: Seq<GearSource>,
    iv: Seq<WeaponInterval>,
)
    requires
        events.len() <= u64::MAX,
    ensures
        forall|k: int|
            0 <= k < gear(events, pov, sources, iv).buffs.len() ==> (#[trigger] gear(
                events,
                pov,
                sources,
                iv,
            ).buffs[k]).count <= events.len(),
    decreases events.len(),
{
    if events.len() > 0 {
        let pre = events.drop_last();
        lemma_gear_counts(pre, pov, sources, iv);
        let b = gear(pre, pov, sources, iv).buffs;
        lemma_find_buff(b, events.last().skill_id);
        let r = gear(events, pov, sources, iv).buffs;
        assert forall|k: int| 0 <= k < r.len() implies (#[trigger] r[k]).count <= events.len() by {
            if k < b.len() {
                assert(b[k].count <= pre.len());
            }
        }
    }
}

fn source_exec(sources: &Vec<GearSource>, skill: u32) -> (r: Option<UpgradeKind>)
    ensures
        r == source_of(sources@, skill),
{
    let mut i: usize = 0;
    assert(sources@.subrange(0, sources@.len() as int) =~= sources@);
    while i < sources.len()
        invariant
            i <= sources@.len(),
            source_of(sources@, skill) == source_of(
                sources@.subrange(i as int, sources@.len() as int),
                skill,
            ),
        decreases sources@.len() - i,
    {
        let ghost rest = sources@.subrange(i as int, sources@.len() as int);
        assert(rest.subrange(1, rest.len() as int) =~= sources@.subrange(
            i + 1,
            sources@.len() as int,
        ));
        if sources[i].skill == skill {
            return Some(sources[i].kind);
        }
        i = i + 1;
    }
    None
}

fn push_once(v: &mut Vec<u32>, x: u32)
    ensures
        final(v)@ == add_once(old(v)@, x),
{
    let mut i: usize = 0;
    while i < v.len()
        invariant
            i <= v@.len(),
            forall|k: int| 0 <= k < i ==> v@[k] != x,
        decreases v@.len() - i,
    {
        if v[i] == x {
            return;
        }
        i = i + 1;
    }
    v.push(x);
}

fn add_buff_exec(b: &mut Vec<GearBuff>, skill: u32)
    requires
        forall|k: int| 0 <= k < old(b)@.len() ==> (#[trigger] old(b)@[k]).count < u64::MAX,
    ensures
        final(b)@ == add_buff(old(b)@, skill),
{
    proof {
        lemma_find_buff(b@, skill);
    }
    let ghost b0 = b@;
    let mut j: usize = b.len();
    assert(b@.subrange(0, j as int) =~= b@);
    while j > 0
        invariant
            j <= b@.len(),
            b@ == b0,
            b0 == old(b)@,
            forall|k: int| 0 <= k < b0.len() ==> (#[trigger] b0[k]).count < u64::MAX,
            find_buff(b0, skill) == find_buff(b0.subrange(0, j as int), skill),
        decreases j,
    {
        assert(b0.subrange(0, j as int).drop_last() =~= b0.subrange(0, j - 1));
        if b[j - 1].skill == skill {
            let c = b[j - 1].count;
            assert(b0[j - 1].count < u64::MAX);
            b.set(j - 1, GearBuff { skill, count: c + 1 });
            return;
        }
        j = j - 1;
    }
    b.push(GearBuff { skill, count: 1 });
}

fn add_sigil_exec(s: &mut Vec<SetSigils>, set: WeaponSet, skill: u32)
    ensures
        sigils_view(final(s)@) == add_sigil(sigils_view(old(s)@), set, skill),
{
    let ghost sv = sigils_view(s@);
    proof {
        lemma_find_set(sv, set);
    }
    if set == WeaponSet::Unknown {
        return;
    }
    let mut j: usize = s.len();
    assert(sv.subrange(0, j as int) =~= sv);
    while j > 0
        invariant
            j <= s@.len(),
            sv == sigils_view(s@),
            sv == sigils_view(old(s)@),
            set != WeaponSet::Unknown,
            find_set(sv, set) == find_set(sv.subrange(0, j as int), set),
        decreases j,
    {
        assert(sv.subrange(0, j as int).drop_last() =~= sv.subrange(0, j - 1));
        if s[j - 1].set == set {
            assert(find_set(sv, set) == j - 1);
            push_once(&mut s[j - 1].sigils, skill);
            assert(sigils_view(s@) =~= add_sigil(sv, set, skill));
            return;
        }
        j = j - 1;
    }
    let mut sigils: Vec<u32> = Vec::new();
    sigils.push(skill);
    s.push(SetSigils { set, sigils });
    assert(sigils_view(s@) =~= add_sigil(sv, set, skill));
}

fn apply_gear_event(
    buffs: &mut Vec<GearBuff>,
    runes: &mut Vec<u32>,
    sigils: &mut Vec<SetSigils>,
    e: CombatEvent,
    pov: u64,
    sources: &Vec<GearSource>,
    iv: &Vec<WeaponInterval>,
)
    requires
        forall|k: int| 0 <= k < old(buffs)@.len() ==> (#[trigger] old(buffs)@[k]).count < u64::MAX,
        iv@.len() > 0,
        contiguous(iv@),
        starts_increasing(iv@),
        iv@.last().end is None,
    ensures
        gear_step(
            GearModel { buffs: old(buffs)@, runes: old(runes)@, sigils: sigils_view(old(sigils)@) },
            e,
            pov,
            sources@,
            iv@,
        ) == (GearModel { buffs: final(buffs)@, runes: final(runes)@, sigils: sigils_view(final(sigils)@) }),
{
    if e.kind() == EventKind::BuffApply && e.dst_agent == pov {
        match source_exec(sources, e.skill_id) {
            Some(UpgradeKind::Rune) => {
                add_buff_exec(buffs, e.skill_id);
                push_once(runes, e.skill_id);
            },
            Some(UpgradeKind::Sigil) => {
                add_buff_exec(buffs, e.skill_id);
                let set = crate::weapons::set_for(iv, e.time);
                add_sigil_exec(sigils, set, e.skill_id);
            },
            None => {},
        }
    }
}

/// Reconstructs the gear of agent `pov` from the buffs that `sources` names as
/// coming from runes and sigils. Sigils are keyed by the weapon set equipped at
/// their application, over the timeline built from `start` and `initial`.
pub fn extract_gear(
    events: &Vec<CombatEvent>,
    pov: u64,
    sources: &Vec<GearSource>,
    start: u64,
    initial: WeaponSet,
) -> (r: GearInfo)
    ensures
        r.model() == gear(events@, pov, sources@, timeline(events@, pov, start, initial)),
{
    let iv = crate::weapons::build_timeline(events, pov, start, initial);
    let mut buffs: Vec<GearBuff> = Vec::new();
    let mut runes: Vec<u32> = Vec::new();
    let mut sigils: Vec<SetSigils> = Vec::new();
    let mut i: usize = 0;
    while i < events.len()
        invariant
            i <= events@.len(),
            timeline_wf(iv@, start),
            iv@ == timeline(events@, pov, start, initial),
            buffs@ == gear(events@.subrange(0, i as int), pov, sources@, iv@).buffs,
            runes@ == gear(events@.subrange(0, i as int), pov, sources@, iv@).runes,
            sigils_view(sigils@) == gear(events@.subrange(0, i as int), pov, sources@, iv@).sigils,
        decreases events@.len() - i,
    {
        let ghost pre = events@.subrange(0, i as int);
        assert(events@.subrange(0, i + 1).drop_last() =~= pre);
        proof {
            lemma_gear_counts(pre, pov, sources@, iv@);
            assert forall|k: int| 0 <= k < buffs@.len() implies (#[trigger] buffs@[k]).count
                < u64::MAX by {
                assert(buffs@[k].count <= pre.len());
            }
        }
        let e = events[i];
        apply_gear_event(&mut buffs, &mut runes, &mut sigils, e, pov, sources, &iv);
        i = i + 1;
    }
    assert(events@.subrange(0, events@.len() as int) =~= events@);
    GearInfo { buffs, runes, sigils }
}

} // verus!
