//! Stable ordering of the event table by time, the precondition of every pass.
use vstd::prelude::*;
use crate::event::CombatEvent;

verus! {

pub open spec fn is_sorted_by_time(s: Seq<CombatEvent>) -> bool {
    forall|i: int, j: int| 0 <= i < j < s.len() ==> (#[trigger] s[i]).time <= (#[trigger] s[j]).time
}

/// Places `e` after every event of `s` with a time at most its own, counting from the end.
pub open spec fn insert_by_time(s: Seq<CombatEvent>, e: CombatEvent) -> Seq<CombatEvent>
    decreases s.len(),
{
    if s.len() == 0 {
        seq![e]
    } else if s.last().time <= e.time {
        s.push(e)
    } else {
        insert_by_time(s.drop_last(), e).push(s.last())
    }
}

/// `s` ordered by time; events of equal time keep their relative order.
pub open spec fn sort_by_time(s: Seq<CombatEvent>) -> Seq<CombatEvent>
    decreases s.len(),
{
    if s.len() == 0 {
        Seq::empty()
    } else {
        insert_by_time(sort_by_time(s.drop_last()), s.last())
    }
}

/// The events of `s` at time `t`, in their order.
pub open spec fn with_time(s: Seq<CombatEvent>, t: u64) -> Seq<CombatEvent>
    decreases s.len(),
{
    if s.len() == 0 {
        Seq::empty()
    } else if s.last().time == t {
        with_time(s.drop_last(), t).push(s.last())
    } else {
        with_time(s.drop_last(), t)
    }
}

proof fn lemma_insert_at(s: Seq<CombatEvent>, e: CombatEvent, p: int)
    requires
        0 <= p <= s.len(),
        forall|k: int| p <= k < s.len() ==> (#[trigger] s[k]).time > e.time,
        p > 0 ==> s[p - 1].time <= e.time,
    ensures
        insert_by_time(s, e) == s.insert(p, e),
    decreases s.len(),
{
    if s.len() == 0 {
        assert(s.insert(p, e) =~= seq![e]);
    } else if p == s.len() {
        assert(s.insert(p, e) =~= s.push(e));
    } else {
        lemma_insert_at(s.drop_last(), e, p);
        assert(s.drop_last().insert(p, e).push(s.last()) =~= s.insert(p, e));
    }
}

proof fn lemma_insert_len_bound(s: Seq<CombatEvent>, e: CombatEvent, b: u64)
    requires
        forall|k: int| 0 <= k < s.len() ==> (#[trigger] s[k]).time <= b,
        e.time <= b,
    ensures
        insert_by_time(s, e).len() == s.len() + 1,
        forall|k: int| 0 <= k < s.len() + 1 ==> (#[trigger] insert_by_time(s, e)[k]).time <= b,
    decreases s.len(),
{
    if s.len() > 0 && s.last().time > e.time {
        lemma_insert_len_bound(s.drop_last(), e, b);
    }
}

proof fn lemma_insert_sorted(s: Seq<CombatEvent>, e: CombatEvent)
    requires
        is_sorted_by_time(s),
    ensures
        is_sorted_by_time(insert_by_time(s, e)),
        insert_by_time(s, e).len() == s.len() + 1,
    decreases s.len(),
{
    if s.len() > 0 {
        if s.last().time > e.time {
            let d = s.drop_last();
            lemma_insert_sorted(d, e);
            assert forall|k: int| 0 <= k < d.len() implies (#[trigger] d[k]).time <= s.last().time by {
                assert(s[k].time <= s[s.len() - 1].time);
            }
            lemma_insert_len_bound(d, e, s.last().time);
        }
    }
}

/// Sorting yields events ordered by time, as many as it was given.
pub proof fn lemma_sort_sorted(s: Seq<CombatEvent>)
    ensures
        is_sorted_by_time(sort_by_time(s)),
        sort_by_time(s).len() == s.len(),
    decreases s.len(),
{
    if s.len() > 0 {
        lemma_sort_sorted(s.drop_last());
        lemma_insert_sorted(sort_by_time(s.drop_last()), s.last());
    }
}

proof fn lemma_insert_with_time(s: Seq<CombatEvent>, e: CombatEvent, t: u64)
    ensures
        with_time(insert_by_time(s, e), t) == if e.time == t {
            with_time(s, t).push(e)
        } else {
            with_time(s, t)
        },
    decreases s.len(),
{
    if s.len() > 0 && s.last().time > e.time {
        let d = s.drop_last();
        lemma_insert_with_time(d, e, t);
        let r = insert_by_time(d, e);
        assert(r.push(s.last()).drop_last() =~= r);
        assert(insert_by_time(s, e) == r.push(s.last()));
        let l = s.last();
        assert(r.push(l).last() == l);
        if l.time == t {
            assert(with_time(r.push(l), t) == with_time(r, t).push(l));
        } else {
            assert(with_time(r.push(l), t) == with_time(r, t));
        }
    } else if s.len() > 0 {
        assert(s.push(e).drop_last() =~= s);
        assert(insert_by_time(s, e) == s.push(e));
    } else {
        assert(seq![e].drop_last() =~= Seq::<CombatEvent>::empty());
        assert(with_time(Seq::<CombatEvent>::empty(), t) =~= Seq::<CombatEvent>::empty());
        assert(Seq::<CombatEvent>::empty().push(e) =~= seq![e]);
        assert(s =~= Seq::<CombatEvent>::empty());
        assert(insert_by_time(s, e) == seq![e]);
        assert(seq![e].last() == e);
    }
}

/// Stability: for every time, the events at that time come out of sorting in the
/// order in which they went in.
pub proof fn lemma_sort_stable(s: Seq<CombatEvent>, t: u64)
    ensures
        with_time(sort_by_time(s), t) == with_time(s, t),
    decreases s.len(),
{
    if s.len() > 0 {
        lemma_sort_stable(s.drop_last(), t);
        lemma_insert_with_time(sort_by_time(s.drop_last()), s.last(), t);
    }
}

/// Sorting a sequence that is already ordered by time leaves it unchanged, so
/// sorting twice is sorting once.
pub proof fn lemma_sort_idempotent(s: Seq<CombatEvent>)
    ensures
        is_sorted_by_time(s) ==> sort_by_time(s) == s,
        sort_by_time(sort_by_time(s)) == sort_by_time(s),
{
    lemma_sort_sorted(s);
    lemma_sort_noop_sorted(sort_by_time(s));
    if is_sorted_by_time(s) {
        lemma_sort_noop_sorted(s);
    }
}

proof fn lemma_sort_noop_sorted(s: Seq<CombatEvent>)
    requires
        is_sorted_by_time(s),
    ensures
        sort_by_time(s) == s,
    decreases s.len(),
{
    if s.len() > 0 {
        let d = s.drop_last();
        assert(is_sorted_by_time(d));
        lemma_sort_noop_sorted(d);
        if d.len() > 0 {
            assert(s[d.len() - 1].time <= s[s.len() - 1].time);
        }
        assert(d.push(s.last()) =~= s);
    }
}

/// Orders the events by time, stably: events of equal time keep their order.
pub fn sort_events(events: &mut Vec<CombatEvent>)
    ensures
        final(events)@ == sort_by_time(old(events)@),
        is_sorted_by_time(final(events)@),
{
    let mut out: Vec<CombatEvent> = Vec::new();
    let mut i: usize = 0;
    while i < events.len()
        invariant
            i <= events@.len(),
            out@ == sort_by_time(events@.subrange(0, i as int)),
            is_sorted_by_time(out@),
            out@.len() == i,
        decreases events@.len() - i,
    {
        assert(events@.subrange(0, i + 1).drop_last() =~= events@.subrange(0, i as int));
        let e = events[i];
        let mut p: usize = out.len();
        while p > 0 && out[p - 1].time > e.time
            invariant
                p <= out@.len(),
                forall|k: int| p <= k < out@.len() ==> (#[trigger] out@[k]).time > e.time,
            decreases p,
        {
            p = p - 1;
        }
        proof {
            lemma_insert_at(out@, e, p as int);
            lemma_insert_sorted(out@, e);
        }
        out.insert(p, e);
        i = i + 1;
    }
    assert(events@.subrange(0, events@.len() as int) =~= events@);
    *events = out;
}

} // verus!
