//! The decoded telemetry event and its classification.
use vstd::prelude::*;

verus! {

/// State transition carried by a statechange event.
#[derive(Debug, Clone, Copy, PartialEq, Eq, Structural)]
pub enum StateChange {
    Normal,
    LogStart,
    LogEnd,
    WeaponSwap,
    Position,
    Velocity,
    Facing,
    BuffInitial,
    PointOfView,
    Other(u8),
}

/// Skill activation marker of an event.
#[derive(Debug, Clone, Copy, PartialEq, Eq, Structural)]
pub enum Activation {
    Inactive,
    Start,
    QuicknessUnused,
    CancelFire,
    CancelCancel,
    Reset,
    Other(u8),
}

/// Buff removal marker of an event.
#[derive(Debug, Clone, Copy, PartialEq, Eq, Structural)]
pub enum BuffRemove {
    Kept,
    All,
    Single,
    Manual,
    Other(u8),
}

/// State of a breakbar.
#[derive(Debug, Clone, Copy, PartialEq, Eq, PartialOrd, Ord, Hash)]
pub enum BreakbarState {
    Active,
    Recover,
    Immune,
    Absent,
}

/// One timestamped telemetry record, as produced by the log decoder.
#[derive(Debug, Clone, Copy, PartialEq, Eq, Structural)]
pub struct CombatEvent {
    pub time: u64,
    pub src_agent: u64,
    pub dst_agent: u64,
    pub value: i32,
    pub buff_dmg: i32,
    pub skill_id: u32,
    pub is_statechange: StateChange,
    pub is_activation: Activation,
    pub is_buffremove: BuffRemove,
    pub is_buff: bool,
}

/// What an event is, derived from its markers.
#[derive(Debug, Clone, Copy, PartialEq, Eq, Structural)]
pub enum EventKind {
    StateChange,
    Activation,
    BuffRemove,
    BuffApply,
    BuffDamage,
    DirectDamage,
}

pub open spec fn kind_of(e: CombatEvent) -> EventKind {
    if e.is_statechange != StateChange::Normal {
        EventKind::StateChange
    } else if e.is_activation != Activation::Inactive {
        EventKind::Activation
    } else if e.is_buffremove != BuffRemove::Kept {
        EventKind::BuffRemove
    } else if e.is_buff && e.value != 0 {
        EventKind::BuffApply
    } else if e.is_buff {
        EventKind::BuffDamage
    } else {
        EventKind::DirectDamage
    }
}

/// A damage or buff-application event: what a cast can have as its effects.
pub open spec fn is_hit(e: CombatEvent) -> bool {
    let k = kind_of(e);
    k == EventKind::BuffApply || k == EventKind::BuffDamage || k == EventKind::DirectDamage
}

/// An activation that starts a cast.
pub open spec fn is_cast_begin(e: CombatEvent) -> bool {
    kind_of(e) == EventKind::Activation && (e.is_activation == Activation::Start
        || e.is_activation == Activation::QuicknessUnused)
}

/// An activation that ends a cast.
pub open spec fn is_cast_end(e: CombatEvent) -> bool {
    kind_of(e) == EventKind::Activation && (e.is_activation == Activation::CancelFire
        || e.is_activation == Activation::CancelCancel || e.is_activation == Activation::Reset)
}

/// Magnitude of a hit: the damage of a direct or buff hit, the duration of a buff apply.
pub open spec fn hit_value(e: CombatEvent) -> i32 {
    if kind_of(e) == EventKind::BuffDamage {
        e.buff_dmg
    } else {
        e.value
    }
}

impl CombatEvent {
    pub fn kind(&self) -> (r: EventKind)
        ensures
            r == kind_of(*self),
    {
        if self.is_statechange != StateChange::Normal {
            EventKind::StateChange
        } else if self.is_activation != Activation::Inactive {
            EventKind::Activation
        } else if self.is_buffremove != BuffRemove::Kept {
            EventKind::BuffRemove
        } else if self.is_buff && self.value != 0 {
            EventKind::BuffApply
        } else if self.is_buff {
            EventKind::BuffDamage
        } else {
            EventKind::DirectDamage
        }
    }

    pub fn is_hit(&self) -> (r: bool)
        ensures
            r == is_hit(*self),
    {
        match self.kind() {
            EventKind::BuffApply | EventKind::BuffDamage | EventKind::DirectDamage => true,
            _ => false,
        }
    }

    pub fn is_cast_begin(&self) -> (r: bool)
        ensures
            r == is_cast_begin(*self),
    {
        self.kind() == EventKind::Activation && (self.is_activation == Activation::Start
            || self.is_activation == Activation::QuicknessUnused)
    }

    pub fn is_cast_end(&self) -> (r: bool)
        ensures
            r == is_cast_end(*self),
    {
        self.kind() == EventKind::Activation && (self.is_activation == Activation::CancelFire
            || self.is_activation == Activation::CancelCancel
            || self.is_activation == Activation::Reset)
    }

    pub fn hit_value(&self) -> (r: i32)
        ensures
            r == hit_value(*self),
    {
        if self.kind() == EventKind::BuffDamage {
            self.buff_dmg
        } else {
            self.value
        }
    }
}

/// The event marks the start of the log.
pub open spec fn is_log_start(e: CombatEvent) -> bool {
    e.is_statechange == StateChange::LogStart
}

/// Time of the first log-start event, which marks time zero of the log.
pub fn log_start(events: &Vec<CombatEvent>) -> (r: u64)
    requires
        exists|i: int| 0 <= i < events@.len() && is_log_start(#[trigger] events@[i]),
    ensures
        exists|i: int|
            0 <= i < events@.len() && is_log_start(events@[i]) && r == events@[i].time
                && forall|j: int| 0 <= j < i ==> !is_log_start(#[trigger] events@[j]),
{
    let mut i: usize = 0;
    while i < events.len()
        invariant
            i <= events@.len(),
            forall|j: int| 0 <= j < i ==> !is_log_start(#[trigger] events@[j]),
            exists|k: int| 0 <= k < events@.len() && is_log_start(#[trigger] events@[k]),
        decreases events@.len() - i,
    {
        if events[i].is_statechange == StateChange::LogStart {
            return events[i].time;
        }
        i = i + 1;
    }
    proof {
        let k = choose|k: int| 0 <= k < events@.len() && is_log_start(#[trigger] events@[k]);
        assert(!is_log_start(events@[k]));
    }
    0
}

/// The event names the agent that recorded the log.
pub open spec fn is_pov_marker(e: CombatEvent) -> bool {
    e.is_statechange == StateChange::PointOfView
}

/// The agent that recorded the log: the source of the first point-of-view event.
pub fn point_of_view(events: &Vec<CombatEvent>) -> (r: Option<u64>)
    ensures
        match r {
            Some(a) => exists|i: int|
                0 <= i < events@.len() && is_pov_marker(events@[i]) && a == events@[i].src_agent
                    && forall|j: int| 0 <= j < i ==> !is_pov_marker(#[trigger] events@[j]),
            None => forall|j: int| 0 <= j < events@.len() ==> !is_pov_marker(#[trigger] events@[j]),
        },
{
    let mut i: usize = 0;
    while i < events.len()
        invariant
            i <= events@.len(),
            forall|j: int| 0 <= j < i ==> !is_pov_marker(#[trigger] events@[j]),
        decreases events@.len() - i,
    {
        if events[i].is_statechange == StateChange::PointOfView {
            return Some(events[i].src_agent);
        }
        i = i + 1;
    }
    None
}

} // verus!
