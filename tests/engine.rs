use arcdps_log_engine::{
    build_timeline, extract_casts, extract_gear, extract_positions, extract_skills,
    filter_events, find_agent, find_interval, find_skill, log_start, map_hits_to_set,
    parse_selector, point_of_view, sort_events, Activation, Agent, BuffRemove, CombatEvent, EventKind,
    GearSource, Selector, Skill, StateChange, UpgradeKind, WeaponSet,
};

fn base(time: u64, agent: u64, skill: u32) -> CombatEvent {
    CombatEvent {
        time,
        src_agent: agent,
        dst_agent: 0,
        value: 0,
        buff_dmg: 0,
        skill_id: skill,
        is_statechange: StateChange::Normal,
        is_activation: Activation::Inactive,
        is_buffremove: BuffRemove::Kept,
        is_buff: false,
    }
}

fn begin(time: u64, agent: u64, skill: u32) -> CombatEvent {
    CombatEvent { is_activation: Activation::Start, ..base(time, agent, skill) }
}

fn end(time: u64, agent: u64, skill: u32, how: Activation) -> CombatEvent {
    CombatEvent { is_activation: how, ..base(time, agent, skill) }
}

fn hit(time: u64, agent: u64, skill: u32, damage: i32) -> CombatEvent {
    CombatEvent { value: damage, dst_agent: 99, ..base(time, agent, skill) }
}

fn buff_apply(time: u64, src: u64, dst: u64, skill: u32) -> CombatEvent {
    CombatEvent { is_buff: true, value: 1000, dst_agent: dst, ..base(time, src, skill) }
}

fn statechange(time: u64, agent: u64, kind: StateChange, dst: u64) -> CombatEvent {
    CombatEvent { is_statechange: kind, dst_agent: dst, ..base(time, agent, 0) }
}

fn agent(address: u64, name: &str) -> Agent {
    Agent { address, names: vec![name.to_string()], profession: 2, elite: 0 }
}

#[test]
fn interrupted_cast_is_finalized_without_end() {
    let events = vec![
        begin(0, 1, 5),
        begin(10, 1, 5),
        end(15, 1, 5, Activation::Reset),
    ];
    let r = extract_casts(&events, None);
    assert_eq!(r.casts.len(), 2);
    assert_eq!(r.casts[0].start, 0);
    assert_eq!(r.casts[0].end, None);
    assert!(!r.casts[0].completed);
    assert_eq!(r.casts[1].start, 10);
    assert_eq!(r.casts[1].end, Some(15));
    assert!(r.casts[1].completed);
    assert!(r.hits_without_cast.is_empty());
}

#[test]
fn hit_without_begin_is_unattributed() {
    let events = vec![hit(5, 2, 9, 300)];
    let r = extract_casts(&events, None);
    assert_eq!(r.hits_without_cast.len(), 1);
    let u = r.hits_without_cast[0];
    assert_eq!((u.agent, u.skill, u.time, u.value), (2, 9, 5, 300));
    assert_eq!(r.casts.iter().filter(|c| c.skill == 9).count(), 0);
}

#[test]
fn hits_attach_to_open_cast_only() {
    let events = vec![
        begin(0, 1, 5),
        hit(2, 1, 5, 100),
        hit(3, 1, 6, 50),
        end(4, 1, 5, Activation::CancelCancel),
        hit(6, 1, 5, 70),
        buff_apply(7, 1, 3, 5),
    ];
    let r = extract_casts(&events, None);
    assert_eq!(r.casts.len(), 1);
    assert_eq!(r.casts[0].end, Some(4));
    assert!(!r.casts[0].completed);
    assert_eq!(r.casts[0].hits.len(), 1);
    assert_eq!(r.casts[0].hits[0].time, 2);
    assert_eq!(r.casts[0].hits[0].value, 100);
    assert_eq!(r.casts[0].hits[0].target, 99);
    assert_eq!(r.casts[0].hits[0].kind, EventKind::DirectDamage);
    let times: Vec<u64> = r.hits_without_cast.iter().map(|u| u.time).collect();
    assert_eq!(times, vec![3, 6, 7]);
}

#[test]
fn every_hit_is_counted_once() {
    let events = vec![
        begin(0, 1, 5),
        hit(1, 1, 5, 10),
        begin(2, 2, 5),
        hit(3, 2, 5, 10),
        hit(4, 1, 5, 10),
        begin(5, 1, 5),
        hit(6, 1, 5, 10),
        end(7, 2, 5, Activation::CancelFire),
        hit(8, 2, 5, 10),
        hit(9, 3, 7, 10),
        statechange(10, 1, StateChange::Position, 0),
    ];
    let qualifying = events.iter().filter(|e| e.is_hit()).count();
    let r = extract_casts(&events, None);
    let attached: usize = r.casts.iter().map(|c| c.hits.len()).sum();
    assert_eq!(attached + r.hits_without_cast.len(), qualifying);
    assert_eq!(attached, 4);
    assert_eq!(r.hits_without_cast.len(), 2);
}

#[test]
fn skill_filter_ignores_other_skills() {
    let events = vec![begin(0, 1, 5), hit(1, 1, 6, 10), hit(2, 1, 5, 20), hit(3, 1, 7, 5)];
    let r = extract_casts(&events, Some(5));
    assert_eq!(r.casts.len(), 1);
    assert_eq!(r.casts[0].hits.len(), 1);
    assert!(r.hits_without_cast.is_empty());
}

#[test]
fn correlation_is_deterministic() {
    let events = vec![begin(0, 1, 5), hit(1, 1, 5, 10), hit(1, 1, 5, 11), end(2, 1, 5, Activation::Reset)];
    let a = extract_casts(&events, None);
    let b = extract_casts(&events, None);
    assert_eq!(a.casts.len(), b.casts.len());
    assert_eq!(a.casts[0].hits, b.casts[0].hits);
    assert_eq!(a.hits_without_cast, b.hits_without_cast);
    let values: Vec<i32> = a.casts[0].hits.iter().map(|h| h.value).collect();
    assert_eq!(values, vec![10, 11]);
}

#[test]
fn numeric_selector_matches_address() {
    let agents = vec![agent(7, "12345"), agent(12345, "Warrior")];
    assert_eq!(find_agent(&agents, "12345").ok(), Some(1));
}

#[test]
fn name_selector_matches_primary_name() {
    let agents = vec![agent(7, "Guardian"), agent(12345, "Warrior")];
    assert_eq!(find_agent(&agents, "Warrior").ok(), Some(1));
    let mut other = agent(8, "Alias");
    other.names.push("Warrior".to_string());
    let agents = vec![other];
    let err = find_agent(&agents, "Warrior").err().unwrap();
    assert_eq!(err.selector, "Warrior");
}

#[test]
fn unknown_selector_is_not_found() {
    let agents = vec![agent(7, "Guardian")];
    let err = find_agent(&agents, "99").err().unwrap();
    assert_eq!(err.selector, "99");
    let skills = vec![Skill { id: 5, name: "Fireball".to_string() }];
    assert_eq!(find_skill(&skills, "5").ok(), Some(0));
    assert_eq!(find_skill(&skills, "Fireball").ok(), Some(0));
    assert!(find_skill(&skills, "Frostbolt").is_err());
}

#[test]
fn selector_parsing() {
    assert!(matches!(parse_selector("12345"), Selector::Id(12345)));
    assert!(matches!(parse_selector("+12"), Selector::Id(12)));
    assert!(matches!(parse_selector("18446744073709551615"), Selector::Id(u64::MAX)));
    match parse_selector("18446744073709551616") {
        Selector::Name(n) => assert_eq!(n, "18446744073709551616"),
        Selector::Id(_) => panic!("overflowing number parsed"),
    }
    assert!(matches!(parse_selector(""), Selector::Name(ref n) if n.is_empty()));
    assert!(matches!(parse_selector("+"), Selector::Name(_)));
    assert!(matches!(parse_selector("12a"), Selector::Name(_)));
}

#[test]
fn filter_keeps_selected_agent() {
    let events = vec![hit(1, 1, 5, 1), hit(2, 2, 5, 2), hit(3, 1, 5, 3)];
    let f = filter_events(&events, Some(1));
    assert_eq!(f.iter().map(|e| e.time).collect::<Vec<_>>(), vec![1, 3]);
    assert_eq!(filter_events(&events, None), events);
}

#[test]
fn sort_keeps_order_of_equal_times() {
    let mut events = vec![hit(5, 1, 1, 1), hit(3, 1, 1, 2), hit(5, 1, 1, 3), hit(3, 1, 1, 4), hit(1, 1, 1, 5)];
    sort_events(&mut events);
    let order: Vec<(u64, i32)> = events.iter().map(|e| (e.time, e.value)).collect();
    assert_eq!(order, vec![(1, 5), (3, 2), (3, 4), (5, 1), (5, 3)]);
    let before = events.clone();
    sort_events(&mut events);
    assert_eq!(events, before);
}

#[test]
fn log_start_finds_first_marker() {
    let events = vec![hit(1, 1, 1, 1), statechange(4, 0, StateChange::LogStart, 0), statechange(9, 0, StateChange::LogStart, 0)];
    assert_eq!(log_start(&events), 4);
}

#[test]
fn weapon_timeline_covers_log() {
    let events = vec![
        hit(10, 1, 1, 1),
        statechange(20, 1, StateChange::WeaponSwap, 5),
        statechange(20, 2, StateChange::WeaponSwap, 0),
        statechange(30, 1, StateChange::WeaponSwap, 4),
        statechange(30, 1, StateChange::WeaponSwap, 1),
    ];
    let iv = build_timeline(&events, 1, 10, WeaponSet::Land1);
    assert_eq!(iv.len(), 3);
    assert_eq!((iv[0].set, iv[0].start, iv[0].end), (WeaponSet::Land1, 10, Some(20)));
    assert_eq!((iv[1].set, iv[1].start, iv[1].end), (WeaponSet::Land2, 20, Some(30)));
    assert_eq!((iv[2].set, iv[2].start, iv[2].end), (WeaponSet::Water2, 30, None));
    assert_eq!(find_interval(&iv, 9), None);
    assert_eq!(find_interval(&iv, 10), Some(0));
    assert_eq!(find_interval(&iv, 19), Some(0));
    assert_eq!(find_interval(&iv, 20), Some(1));
    assert_eq!(find_interval(&iv, 1000), Some(2));
}

#[test]
fn hits_grouped_by_weapon_set() {
    let events = vec![
        hit(5, 1, 1, 1),
        hit(12, 1, 1, 2),
        statechange(20, 1, StateChange::WeaponSwap, 5),
        hit(21, 1, 1, 3),
        hit(22, 2, 1, 4),
        statechange(30, 1, StateChange::WeaponSwap, 4),
        hit(31, 1, 1, 5),
        buff_apply(32, 1, 1, 8),
    ];
    let groups = map_hits_to_set(&events, 1, 10, WeaponSet::Land1);
    let summary: Vec<(WeaponSet, Vec<i32>)> = groups
        .iter()
        .map(|g| (g.set, g.hits.iter().map(|h| h.value).collect()))
        .collect();
    assert_eq!(
        summary,
        vec![
            (WeaponSet::Unknown, vec![1]),
            (WeaponSet::Land1, vec![2, 5]),
            (WeaponSet::Land2, vec![3]),
        ]
    );
}

#[test]
fn positions_decode_bits() {
    let x = 1.5f32.to_bits() as u64;
    let y = (-2.0f32).to_bits() as u64;
    let z = 3.25f32.to_bits() as i32;
    let mut e = statechange(7, 1, StateChange::Position, (y << 32) | x);
    e.value = z;
    let events = vec![hit(1, 1, 1, 1), e];
    let p = extract_positions(&events);
    assert_eq!(p.len(), 1);
    assert_eq!(p[0].time, 7);
    assert_eq!(f32::from_bits(p[0].x_bits), 1.5);
    assert_eq!(f32::from_bits(p[0].y_bits), -2.0);
    assert_eq!(f32::from_bits(p[0].z_bits), 3.25);
}

#[test]
fn skill_catalog_counts_in_first_seen_order() {
    let events = vec![
        hit(1, 1, 9, 1),
        begin(2, 1, 5),
        hit(3, 1, 5, 1),
        buff_apply(4, 1, 1, 9),
        statechange(5, 1, StateChange::WeaponSwap, 4),
    ];
    let c = extract_skills(&events, None);
    assert_eq!(c.len(), 2);
    assert_eq!((c[0].id, c[0].count, c[0].casts, c[0].hits, c[0].is_buff), (9, 2, 0, 2, true));
    assert_eq!((c[1].id, c[1].count, c[1].casts, c[1].hits, c[1].is_buff), (5, 2, 1, 1, false));
    let only = extract_skills(&events, Some(5));
    assert_eq!(only.len(), 1);
    assert_eq!(only[0].id, 5);
}

#[test]
fn gear_from_rune_and_sigil_buffs() {
    let sources = vec![
        GearSource { skill: 100, kind: UpgradeKind::Rune },
        GearSource { skill: 200, kind: UpgradeKind::Sigil },
        GearSource { skill: 201, kind: UpgradeKind::Sigil },
    ];
    let events = vec![
        buff_apply(5, 1, 1, 201),
        buff_apply(10, 1, 1, 100),
        buff_apply(11, 1, 1, 200),
        buff_apply(12, 3, 3, 200),
        statechange(20, 1, StateChange::WeaponSwap, 5),
        buff_apply(21, 1, 1, 201),
        buff_apply(22, 1, 1, 200),
        buff_apply(23, 1, 1, 200),
        buff_apply(24, 1, 1, 100),
        buff_apply(25, 1, 1, 300),
    ];
    let g = extract_gear(&events, 1, &sources, 10, WeaponSet::Land1);
    let buffs: Vec<(u32, u64)> = g.buffs.iter().map(|b| (b.skill, b.count)).collect();
    assert_eq!(buffs, vec![(201, 2), (100, 2), (200, 3)]);
    assert_eq!(g.runes, vec![100]);
    assert_eq!(g.sigils.len(), 2);
    assert_eq!(g.sigils[0].set, WeaponSet::Land1);
    assert_eq!(g.sigils[0].sigils, vec![200]);
    assert_eq!(g.sigils[1].set, WeaponSet::Land2);
    assert_eq!(g.sigils[1].sigils, vec![201, 200]);
}

#[test]
fn event_kinds() {
    assert_eq!(hit(1, 1, 1, 5).kind(), EventKind::DirectDamage);
    assert_eq!(buff_apply(1, 1, 1, 5).kind(), EventKind::BuffApply);
    let mut tick = buff_apply(1, 1, 1, 5);
    tick.value = 0;
    tick.buff_dmg = 40;
    assert_eq!(tick.kind(), EventKind::BuffDamage);
    assert_eq!(tick.hit_value(), 40);
    assert_eq!(begin(1, 1, 1).kind(), EventKind::Activation);
    assert_eq!(statechange(1, 1, StateChange::LogEnd, 0).kind(), EventKind::StateChange);
    let mut removal = buff_apply(1, 1, 1, 5);
    removal.is_buffremove = BuffRemove::All;
    assert_eq!(removal.kind(), EventKind::BuffRemove);
    assert!(!removal.is_hit());
}

#[test]
fn point_of_view_is_first_marker() {
    let events = vec![hit(1, 1, 1, 1), statechange(2, 42, StateChange::PointOfView, 0), statechange(3, 43, StateChange::PointOfView, 0)];
    assert_eq!(point_of_view(&events), Some(42));
    assert_eq!(point_of_view(&vec![hit(1, 1, 1, 1)]), None);
}
