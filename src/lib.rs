//! Reconstruction of casts, weapon-set timelines, gear and positions from a
//! flat, time-ordered stream of combat telemetry events.
use vstd::prelude::*;

pub mod cli;
pub mod event;
pub mod selector;
pub mod sort;
pub mod position;
pub mod cast;
pub mod weapons;
pub mod skill;
pub mod gear;

pub use self::cast::{extract_casts, Cast, Casts, Hit, UnattributedHit};
pub use self::cli::{Args, Cli, Command};
pub use self::event::{
    log_start, point_of_view, Activation, BreakbarState, BuffRemove, CombatEvent, EventKind, StateChange,
};
pub use self::gear::{extract_gear, GearBuff, GearInfo, GearSource, SetSigils, UpgradeKind};
pub use self::position::{extract_positions, Position};
pub use self::selector::{
    filter_events, find_agent, find_skill, parse_selector, Agent, Selector, SelectorNotFound, Skill,
};
pub use self::skill::{extract_skills, SkillStats};
pub use self::sort::sort_events;
pub use self::weapons::{
    build_timeline, find_interval, map_hits_to_set, WeaponHits, WeaponInterval, WeaponSet,
};

verus! {

} // verus!
