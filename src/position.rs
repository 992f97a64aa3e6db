//! Position samples: a projection of the position statechange events.
use vstd::prelude::*;
use crate::event::{CombatEvent, StateChange};

verus! {

/// A position sample. The coordinates are the bit patterns of the 32-bit floats
/// that the log stores.
#[derive(Debug, Clone, Copy, PartialEq, Eq, Structural)]
pub struct Position {
    pub time: u64,
    pub x_bits: u32,
    pub y_bits: u32,
    pub z_bits: u32,
}

pub open spec fn is_position(e: CombatEvent) -> bool {
    e.is_statechange == StateChange::Position
}

/// The sample an event carries: x in the low half of the destination field, y in
/// its high half, z in the value.
pub open spec fn position_of(e: CombatEvent) -> Position {
    Position {
        time: e.time,
        x_bits: e.dst_agent as u32,
        y_bits: (e.dst_agent >> 32u64) as u32,
        z_bits: e.value as u32,
    }
}

/// The samples of the position events in `events`, in their order.
pub open spec fn positions(events: Seq<CombatEvent>) -> Seq<Position>
    decreases events.len(),
{
    if events.len() == 0 {
        Seq::empty()
    } else if is_position(events.last()) {
        positions(events.drop_last()).push(position_of(events.last()))
    } else {
        positions(events.drop_last())
    }
}

/// Extracts the position samples, in event order.
pub fn extract_positions(events: &Vec<CombatEvent>) -> (r: Vec<Position>)
    ensures
        r@ == positions(events@),
{
    let mut out: Vec<Position> = Vec::new();
    let mut i: usize = 0;
    while i < events.len()
        invariant
            i <= events@.len(),
            out@ == positions(events@.subrange(0, i as int)),
        decreases events@.len() - i,
    {
        assert(events@.subrange(0, i + 1).drop_last() =~= events@.subrange(0, i as int));
        let e = events[i];
        if e.is_statechange == StateChange::Position {
            out.push(
                Position {
                    time: e.time,
                    x_bits: e.dst_agent as u32,
                    y_bits: (e.dst_agent >> 32u64) as u32,
                    z_bits: e.value as u32,
                },
            );
        }
        i = i + 1;
    }
    assert(events@.subrange(0, events@.len() as int) =~= events@);
    out
}

} // verus!
