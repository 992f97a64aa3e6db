//! Agent and skill selectors: a numeric identity or a display name, and the
//! agent filter over the event stream.
use vstd::prelude::*;
use vstd::string::StrSliceExecFns;
use crate::event::CombatEvent;

verus! {

/// An agent of the log.
#[derive(Debug, Clone)]
pub struct Agent {
    pub address: u64,
    /// Display names; the first is the primary one.
    pub names: Vec<String>,
    pub profession: u32,
    pub elite: u32,
}

/// A skill of the log.
#[derive(Debug, Clone)]
pub struct Skill {
    pub id: u32,
    pub name: String,
}

/// A parsed selector.
#[derive(Debug, Clone)]
pub enum Selector {
    Id(u64),
    Name(String),
}

/// A selector that matched nothing; holds the selector as given.
#[derive(Debug, Clone)]
pub struct SelectorNotFound {
    pub selector: String,
}

pub open spec fn is_digit(c: char) -> bool {
    '0' <= c && c <= '9'
}

pub open spec fn digit_value(c: char) -> int {
    (c as u32) as int - ('0' as u32) as int
}

/// Decimal value of a sequence of digits.
pub open spec fn digits_value(s: Seq<char>) -> int
    decreases s.len(),
{
    if s.len() == 0 {
        0
    } else {
        digits_value(s.drop_last()) * 10 + digit_value(s.last())
    }
}

/// The digits of a selector: without a leading `+`, if it has one.
pub open spec fn digits_of(s: Seq<char>) -> Seq<char> {
    if s.len() > 0 && s[0] == '+' {
        s.subrange(1, s.len() as int)
    } else {
        s
    }
}

/// The unsigned 64-bit integer that a string spells in decimal, if any.
pub open spec fn parse_id(s: Seq<char>) -> Option<u64> {
    let d = digits_of(s);
    if d.len() > 0 && (forall|i: int| 0 <= i < d.len() ==> is_digit(#[trigger] d[i]))
        && digits_value(d) <= u64::MAX {
        Some(digits_value(d) as u64)
    } else {
        None
    }
}

proof fn lemma_digits_value_grows(s: Seq<char>, n: int)
    requires
        0 <= n <= s.len(),
        forall|i: int| 0 <= i < s.len() ==> is_digit(#[trigger] s[i]),
    ensures
        digits_value(s.subrange(0, n)) <= digits_value(s),
        0 <= digits_value(s),
    decreases s.len(),
{
    if s.len() > 0 {
        assert(s.drop_last() =~= s.subrange(0, s.len() - 1));
        if n < s.len() {
            assert(s.drop_last().subrange(0, n) =~= s.subrange(0, n));
            lemma_digits_value_grows(s.drop_last(), n);
        } else {
            assert(s.subrange(0, n) =~= s);
            lemma_digits_value_grows(s.drop_last(), 0);
        }
    }
}

/// Parses a selector: a string that spells an unsigned 64-bit integer is an
/// identity, anything else a name.
pub fn parse_selector(s: &str) -> (r: Selector)
    ensures
        match parse_id(s@) {
            Some(n) => r matches Selector::Id(m) && m == n,
            None => r matches Selector::Name(name) && name@ == s@,
        },
{
    let len = s.unicode_len();
    let mut i: usize = 0;
    if len > 0 && s.get_char(0) == '+' {
        i = 1;
    }
    let ghost d = digits_of(s@);
    let ghost off = i as int;
    assert(d =~= s@.subrange(off, len as int));
    let start = i;
    let mut acc: u64 = 0;
    let mut ok = start < len;
    while i < len && ok
        invariant
            start <= i <= len,
            len == s@.len(),
            d =~= s@.subrange(off, len as int),
            d == digits_of(s@),
            off == start as int,
            ok ==> acc as int == digits_value(d.subrange(0, i - off)),
            ok ==> forall|k: int| 0 <= k < i - off ==> is_digit(#[trigger] d[k]),
            ok ==> d.len() > 0,
            !ok ==> parse_id(s@) is None,
        decreases len - i,
    {
        let c = s.get_char(i);
        assert(d[i - off] == c);
        assert(d.subrange(0, i + 1 - off).drop_last() =~= d.subrange(0, i - off));
        if c < '0' || c > '9' {
            assert(!is_digit(d[i - off]));
            ok = false;
        } else {
            let v = (c as u32 - '0' as u32) as u64;
            if acc > (u64::MAX - v) / 10 {
                proof {
                    let m = u64::MAX as int;
                    let a = acc as int;
                    let w = v as int;
                    assert(a * 10 + w > m) by (nonlinear_arith)
                        requires
                            a > (m - w) / 10,
                            0 <= w <= 9,
                            m > 9,
                    ;
                    assert(digit_value(d[i - off]) == w);
                    let p = d.subrange(0, i + 1 - off);
                    assert(p.last() == d[i - off]);
                    assert(digits_value(p) == a * 10 + w);
                    if forall|k: int| 0 <= k < d.len() ==> is_digit(#[trigger] d[k]) {
                        lemma_digits_value_grows(d, i + 1 - off);
                        assert(parse_id(s@) is None);
                    } else {
                        assert(parse_id(s@) is None);
                    }
                    assert(parse_id(s@) is None);
                }
                ok = false;
            } else {
                acc = acc * 10 + v;
            }
        }
        i = i + 1;
    }
    if ok {
        assert(d.subrange(0, len - off) =~= d);
        Selector::Id(acc)
    } else {
        Selector::Name(s.to_owned())
    }
}

/// The agent answers to the selector: by address when the selector is numeric,
/// else by its primary name.
pub open spec fn agent_matches(a: Agent, s: Seq<char>) -> bool {
    match parse_id(s) {
        Some(n) => a.address == n,
        None => a.names@.len() > 0 && a.names@[0]@ == s,
    }
}

/// The skill answers to the selector: by id when the selector is numeric, else by name.
pub open spec fn skill_matches(k: Skill, s: Seq<char>) -> bool {
    match parse_id(s) {
        Some(n) => k.id as u64 == n,
        None => k.name@ == s,
    }
}

/// Selector resolution: a selector that spells a number selects by address
/// alone, whatever the names; any other selector selects by primary name alone.
pub proof fn lemma_selector_resolution(a: Agent, s: Seq<char>)
    ensures
        parse_id(s) matches Some(n) ==> (agent_matches(a, s) <==> a.address == n),
        parse_id(s) is None ==> (agent_matches(a, s) <==> (a.names@.len() > 0 && a.names@[0]@
            == s)),
{
}

/// Index of the first agent that answers to the selector.
pub fn find_agent(agents: &Vec<Agent>, selector: &str) -> (r: Result<usize, SelectorNotFound>)
    ensures
        match r {
            Ok(i) => i < agents@.len() && agent_matches(agents@[i as int], selector@) && forall|
                j: int,
            | 0 <= j < i ==> !agent_matches(#[trigger] agents@[j], selector@),
            Err(e) => e.selector@ == selector@ && forall|j: int|
                0 <= j < agents@.len() ==> !agent_matches(#[trigger] agents@[j], selector@),
        },
{
    let sel = parse_selector(selector);
    let name = selector.to_owned();
    let mut i: usize = 0;
    while i < agents.len()
        invariant
            i <= agents@.len(),
            name@ == selector@,
            forall|j: int| 0 <= j < i ==> !agent_matches(#[trigger] agents@[j], selector@),
            match parse_id(selector@) {
                Some(n) => sel matches Selector::Id(m) && m == n,
                None => sel matches Selector::Name(nm) && nm@ == selector@,
            },
        decreases agents@.len() - i,
    {
        let a = &agents[i];
        let found = match &sel {
            Selector::Id(n) => a.address == *n,
            Selector::Name(nm) => a.names.len() > 0 && a.names[0] == *nm,
        };
        if found {
            return Ok(i);
        }
        i = i + 1;
    }
    Err(SelectorNotFound { selector: name })
}

/// Index of the first skill that answers to the selector.
pub fn find_skill(skills: &Vec<Skill>, selector: &str) -> (r: Result<usize, SelectorNotFound>)
    ensures
        match r {
            Ok(i) => i < skills@.len() && skill_matches(skills@[i as int], selector@) && forall|
                j: int,
            | 0 <= j < i ==> !skill_matches(#[trigger] skills@[j], selector@),
            Err(e) => e.selector@ == selector@ && forall|j: int|
                0 <= j < skills@.len() ==> !skill_matches(#[trigger] skills@[j], selector@),
        },
{
    let sel = parse_selector(selector);
    let name = selector.to_owned();
    let mut i: usize = 0;
    while i < skills.len()
        invariant
            i <= skills@.len(),
            name@ == selector@,
            forall|j: int| 0 <= j < i ==> !skill_matches(#[trigger] skills@[j], selector@),
            match parse_id(selector@) {
                Some(n) => sel matches Selector::Id(m) && m == n,
                None => sel matches Selector::Name(nm) && nm@ == selector@,
            },
        decreases skills@.len() - i,
    {
        let k = &skills[i];
        let found = match &sel {
            Selector::Id(n) => k.id as u64 == *n,
            Selector::Name(nm) => k.name == *nm,
        };
        if found {
            return Ok(i);
        }
        i = i + 1;
    }
    Err(SelectorNotFound { selector: name })
}

/// The event belongs to the selected agent, or no agent is selected.
pub open spec fn from_agent(e: CombatEvent, agent: Option<u64>) -> bool {
    match agent {
        Some(a) => e.src_agent == a,
        None => true,
    }
}

/// The events of `events` from the selected agent, in their order.
pub open spec fn filter_agent(events: Seq<CombatEvent>, agent: Option<u64>) -> Seq<CombatEvent>
    decreases events.len(),
{
    if events.len() == 0 {
        Seq::empty()
    } else if from_agent(events.last(), agent) {
        filter_agent(events.drop_last(), agent).push(events.last())
    } else {
        filter_agent(events.drop_last(), agent)
    }
}

/// Keeps the events whose source is the selected agent; all events when none is.
pub fn filter_events(events: &Vec<CombatEvent>, agent: Option<u64>) -> (r: Vec<CombatEvent>)
    ensures
        r@ == filter_agent(events@, agent),
{
    let mut out: Vec<CombatEvent> = Vec::new();
    let mut i: usize = 0;
    while i < events.len()
        invariant
            i <= events@.len(),
            out@ == filter_agent(events@.subrange(0, i as int), agent),
        decreases events@.len() - i,
    {
        assert(events@.subrange(0, i + 1).drop_last() =~= events@.subrange(0, i as int));
        let e = events[i];
        let keep = match agent {
            Some(a) => e.src_agent == a,
            None => true,
        };
        if keep {
            out.push(e);
        }
        i = i + 1;
    }
    assert(events@.subrange(0, events@.len() as int) =~= events@);
    out
}

} // verus!
