use rts_core::game::Game;
use rts_core::game_desc::{
    AttackDesc, GameDesc, PlayerSpawnDesc, SummonDesc, UnitDesc, UnitSpawnDesc,
};
use rts_core::math::Num;
use rts_core::msg::{ClientMsg, DamageMsg, ServerMsg, UnitCmd, UnitCreateMsg, UpdateMsg};
use rts_core::tick::{
    within_arrival, AimReport, MotionReport, SettleReport, TickAction, TickEvent,
};
use rts_core::unit::UnitState;

type Vec2 = vek::Vec2<f32>;

fn num(x: f32) -> Num {
    Num { bits: x.to_bits() }
}

fn val(n: Num) -> f32 {
    f32::from_bits(n.bits)
}

fn vec2(v: rts_core::math::Vec2) -> Vec2 {
    Vec2::new(val(v.x), val(v.y))
}

fn plain(v: Vec2) -> rts_core::math::Vec2 {
    rts_core::math::Vec2::new(num(v.x), num(v.y))
}

fn truncate(v: Vec2, max_magnitude: f32) -> Vec2 {
    let m = v.magnitude();
    if m <= max_magnitude {
        v
    } else {
        v / m * max_magnitude
    }
}

fn motion_reports(game: &Game) -> Vec<MotionReport> {
    let desc = game.desc();
    let units = game.units();
    let dt = val(desc.dt);
    let pos: Vec<Vec2> = units.iter().map(|u| vec2(u.pos) + vec2(u.disp)).collect();
    let mut acc = vec![Vec2::zero(); units.len()];

    for (i, unit) in units.iter().enumerate() {
        let speed = val(desc.units[unit.ty].speed);
        let acc_max = val(desc.units[unit.ty].acc);
        let stop_dist = speed * speed / acc_max * 0.75;
        let a = match unit.state {
            UnitState::Idle => vec2(unit.vel) * -10.,
            UnitState::Move(target) => {
                let d = vec2(target) - pos[i];
                let m = d.magnitude();
                if within_arrival(num(m)) {
                    Vec2::zero()
                } else {
                    let speed_want = (speed * m / stop_dist).min(speed);
                    let v_want = d / m * speed_want;
                    (v_want - vec2(unit.vel)) / dt
                }
            }
        };
        acc[i] += truncate(a, acc_max);
    }

    for i in 0..units.len() {
        for j in 0..units.len() {
            if i == j {
                continue;
            }
            let d = pos[j] - pos[i];
            let m = d.magnitude();
            let r0 = (val(desc.units[units[i].ty].size) + val(desc.units[units[j].ty].size)) / 2.;
            if m < r0 {
                acc[j] += d / m * (r0 - m) * 300.;
            }
        }
    }

    units
        .iter()
        .enumerate()
        .map(|(i, unit)| MotionReport {
            pos: plain(pos[i]),
            acc: plain(acc[i]),
            target_distance: num(match unit.state {
                UnitState::Move(target) => (vec2(target) - pos[i]).magnitude(),
                UnitState::Idle => 0.,
            }),
            speed: num(vec2(unit.vel).magnitude()),
            force: num(acc[i].magnitude()),
            summon_delay: num(match unit.summon {
                Some(summon) => val(summon.delay) - dt,
                None => 0.,
            }),
            spawn_pos: plain(pos[i] + Vec2::new(0., 2. * val(desc.units[unit.ty].size))),
        })
        .collect()
}

fn aim_reports(game: &Game) -> Vec<AimReport> {
    let desc = game.desc();
    let units = game.units();
    let dt = val(desc.dt);
    units
        .iter()
        .map(|attacker| AimReport {
            reload: num(val(attacker.reload) - dt),
            distance: units
                .iter()
                .map(|defender| num((vec2(defender.pos) - vec2(attacker.pos)).magnitude()))
                .collect(),
        })
        .collect()
}

fn settle_reports(game: &Game, hits: &[DamageMsg]) -> Vec<SettleReport> {
    let desc = game.desc();
    let units = game.units();
    let dt = val(desc.dt);
    let mut hp: Vec<f32> = units.iter().map(|u| val(u.hp)).collect();
    for hit in hits {
        if let Some(attack) = desc.units[units[hit.from].ty].attack {
            hp[hit.to] -= val(attack.damage);
        }
    }
    units
        .iter()
        .enumerate()
        .map(|(i, unit)| {
            let vel = vec2(unit.vel) + vec2(unit.acc) * dt;
            SettleReport { hp: num(hp[i]), vel: plain(vel), disp: plain(vel * dt) }
        })
        .collect()
}

fn tick(game: &mut Game) -> UpdateMsg {
    assert_eq!(game.tick(TickEvent::Begin), TickAction::Move);
    let reports = motion_reports(game);
    assert_eq!(game.tick(TickEvent::Moved(reports)), TickAction::Aim);
    let reports = aim_reports(game);
    let hits = match game.tick(TickEvent::Aimed(reports)) {
        TickAction::Settle(hits) => hits,
        other => panic!("the attacks ended with {:?}", other),
    };
    let reports = settle_reports(game, &hits);
    match game.tick(TickEvent::Settled(reports)) {
        TickAction::Send(ServerMsg::Update(update)) => update,
        other => panic!("the tick ended with {:?}", other),
    }
}

fn unit_type(key: &str, size: f32, hp: f32) -> UnitDesc {
    UnitDesc {
        key: key.to_string(),
        summons: None,
        speed: num(10.),
        acc: num(20.),
        size: num(size),
        hp: num(hp),
        attack: None,
    }
}

fn armed(mut unit: UnitDesc, range: f32, damage: f32, delay: f32) -> UnitDesc {
    unit.attack = Some(AttackDesc { range: num(range), damage: num(damage), delay: num(delay) });
    unit
}

fn summoner(mut unit: UnitDesc, key: &str, time: f32) -> UnitDesc {
    unit.summons = Some(vec![SummonDesc {
        key: key.to_string(),
        cost: vec![],
        time: num(time),
        hotkey: String::new(),
    }]);
    unit
}

fn game(dt: f32, units: Vec<UnitDesc>, spawns: Vec<Vec<(&str, f32, f32)>>) -> Game {
    let desc = GameDesc {
        dt: num(dt),
        resources: vec![],
        units,
        player_spawns: spawns
            .into_iter()
            .map(|units| PlayerSpawnDesc {
                units: units
                    .into_iter()
                    .map(|(key, x, y)| UnitSpawnDesc {
                        key: key.to_string(),
                        pos: plain(Vec2::new(x, y)),
                    })
                    .collect(),
            })
            .collect(),
    };
    Game::new(desc).unwrap()
}

fn order(player: usize, id: usize, cmd: UnitCmd) -> (usize, ClientMsg) {
    (player, ClientMsg::Commands(vec![(id, cmd)]))
}

fn target(x: f32, y: f32) -> UnitCmd {
    UnitCmd::Target(plain(Vec2::new(x, y)))
}

#[test]
fn spawn_and_idle() {
    let mut g = game(
        0.05,
        vec![armed(unit_type("soldier", 1., 100.), 5., 10., 1.)],
        vec![vec![("soldier", 0., 0.)], vec![("soldier", 10., 0.)]],
    );
    for _ in 0..10 {
        let update = tick(&mut g);
        assert!(update.damage.is_empty());
        assert!(update.unit_create.is_empty());
        assert_eq!(update.unit_change.len(), 2);
        assert!(update.unit_change.iter().all(|c| !c.dead && val(c.hp) == 100.));
    }
    assert_eq!(vec2(g.units()[0].pos), Vec2::new(0., 0.));
    assert_eq!(vec2(g.units()[1].pos), Vec2::new(10., 0.));
    assert!(g.units().iter().all(|u| !u.dead && u.state == UnitState::Idle));
}

#[test]
fn authorisation() {
    let mut g = game(
        0.05,
        vec![unit_type("soldier", 1., 100.)],
        vec![vec![("soldier", 0., 0.)], vec![("soldier", 10., 0.)]],
    );
    g.process_inputs(&[order(0, 1, target(5., 5.))]);
    tick(&mut g);
    assert_eq!(g.units()[1].state, UnitState::Idle);
    assert_eq!(vec2(g.units()[1].pos), Vec2::new(10., 0.));
    // The owner's order is obeyed.
    g.process_inputs(&[order(1, 1, target(5., 5.))]);
    assert_eq!(g.units()[1].state, UnitState::Move(plain(Vec2::new(5., 5.))));
}

#[test]
fn arrival() {
    let mut g = game(0.05, vec![unit_type("runner", 1., 100.)], vec![vec![("runner", 0., 0.)]]);
    g.process_inputs(&[order(0, 0, target(5., 0.))]);
    assert_eq!(g.units()[0].state, UnitState::Move(plain(Vec2::new(5., 0.))));
    let mut ticks = 0;
    while g.units()[0].state != UnitState::Idle {
        tick(&mut g);
        ticks += 1;
        assert!(ticks <= 200, "the unit is still under way after {} ticks", ticks);
    }
    assert!(ticks > 1);
    let x = val(g.units()[0].pos.x);
    assert!((x - 5.).abs() < 0.1, "the unit stands at {}", x);
    // It comes to rest where it is.
    for _ in 0..100 {
        tick(&mut g);
    }
    let unit = g.units()[0];
    assert_eq!(unit.state, UnitState::Idle);
    assert!((val(unit.pos.x) - 5.).abs() < 0.1);
    assert_eq!(val(unit.pos.y), 0.);
    assert!(vec2(unit.vel).magnitude() < 0.001);
}

#[test]
fn without_orders_units_come_to_rest() {
    let mut g = game(0.05, vec![unit_type("runner", 1., 100.)], vec![vec![("runner", 0., 0.)]]);
    g.process_inputs(&[order(0, 0, target(50., 0.))]);
    for _ in 0..20 {
        tick(&mut g);
    }
    assert!(vec2(g.units()[0].vel).magnitude() > 1.);
    // Stop where you are.
    let here = g.units()[0].pos;
    g.process_inputs(&[order(0, 0, UnitCmd::Target(here))]);
    let mut ticks = 0;
    while g.units()[0].state != UnitState::Idle {
        tick(&mut g);
        ticks += 1;
        assert!(ticks <= 400);
    }
    for _ in 0..100 {
        tick(&mut g);
    }
    let unit = g.units()[0];
    assert_eq!(unit.state, UnitState::Idle);
    assert!(vec2(unit.vel).magnitude() < 1.);
    assert!(vec2(unit.acc).magnitude() < 0.5);
}

#[test]
fn summon() {
    let mut g = game(
        0.25,
        vec![summoner(unit_type("builder", 1.5, 50.), "worker", 0.5), unit_type("worker", 1., 40.)],
        vec![vec![("builder", 3., 4.)]],
    );
    g.process_inputs(&[order(0, 0, UnitCmd::Summon(1))]);
    let first = tick(&mut g);
    assert!(first.unit_create.is_empty());
    assert_eq!(first.unit_change.len(), 1);
    let second = tick(&mut g);
    assert_eq!(second.unit_create, vec![UnitCreateMsg { id: 1, ty: 1, client: 0 }]);
    assert_eq!(second.unit_change.len(), 2);
    assert_eq!(vec2(second.unit_change[1].pos), Vec2::new(3., 7.));
    assert_eq!(val(second.unit_change[1].hp), 40.);
    assert!(!second.unit_change[1].dead);
    assert_eq!(g.units()[0].summon, None);
    // It is announced once.
    for _ in 0..5 {
        let later = tick(&mut g);
        assert!(later.unit_create.is_empty());
        assert_eq!(later.unit_change.len(), 2);
    }
}

#[test]
fn combat() {
    let mut g = game(
        0.25,
        vec![armed(unit_type("soldier", 1., 100.), 5., 10., 1.), unit_type("worker", 1., 40.)],
        vec![vec![("soldier", 0., 0.)], vec![("worker", 3., 0.)]],
    );
    let mut shots = Vec::new();
    for n in 1..=12 {
        let update = tick(&mut g);
        if !update.damage.is_empty() {
            assert_eq!(update.damage, vec![DamageMsg { from: 0, to: 1 }]);
            shots.push(n);
        }
        assert!(!update.unit_change[1].dead);
    }
    // With a tick of a quarter second the weapon fires every fourth tick.
    assert_eq!(shots, vec![1, 5, 9]);
    assert_eq!(val(g.units()[1].hp), 10.);
    // The shot that is due after three seconds is the fourth: 10 * (3 / 1 + 1).
    let update = tick(&mut g);
    assert_eq!(update.damage, vec![DamageMsg { from: 0, to: 1 }]);
    assert_eq!(val(update.unit_change[1].hp), 40. - 10. * (3. / 1. + 1.));
    assert!(update.unit_change[1].dead);
    assert!(!update.unit_change[0].dead);
    assert_eq!(val(update.unit_change[0].hp), 100.);
    // The dead unit is gone from the next update.
    let update = tick(&mut g);
    assert_eq!(update.unit_change.len(), 1);
    assert!(update.damage.is_empty());
    assert_eq!(g.units().len(), 1);
    assert_eq!(g.units()[0].id, 0);
}

#[test]
fn the_snapshot_after_a_death_holds_the_living_only() {
    let mut g = game(
        0.5,
        vec![armed(unit_type("soldier", 1., 100.), 5., 10., 1.), unit_type("worker", 1., 10.)],
        vec![vec![("soldier", 0., 0.)], vec![("worker", 3., 0.)]],
    );
    let update = tick(&mut g);
    assert_eq!(update.damage, vec![DamageMsg { from: 0, to: 1 }]);
    assert_eq!(val(update.unit_change[1].hp), 0.);
    assert!(update.unit_change[1].dead);
    // The defender waits on the field to be taken off; the snapshot does not
    // show it.
    assert_eq!(g.units().len(), 2);
    match g.catchup_msg() {
        ServerMsg::Update(snapshot) => {
            assert_eq!(snapshot.unit_create, vec![UnitCreateMsg { id: 0, ty: 0, client: 0 }]);
            assert_eq!(snapshot.unit_change.len(), 1);
            assert!(!snapshot.unit_change[0].dead);
            assert_eq!(val(snapshot.unit_change[0].hp), 100.);
            assert!(snapshot.damage.is_empty());
        }
        ServerMsg::Room(_) => panic!("the snapshot is an update"),
    }
    // What the snapshot lists is what the next update reports.
    let update = tick(&mut g);
    assert_eq!(update.unit_change.len(), 1);
}

#[test]
fn reported_hit_points_never_rise() {
    let mut g = game(
        0.25,
        vec![armed(unit_type("soldier", 1., 35.), 5., 10., 0.5)],
        vec![vec![("soldier", 0., 0.)], vec![("soldier", 3., 0.)]],
    );
    let mut last = vec![35., 35.];
    let mut ticks = 0;
    while g.units().len() == 2 {
        let update = tick(&mut g);
        for (i, change) in update.unit_change.iter().enumerate() {
            assert!(val(change.hp) <= last[i]);
            assert_eq!(change.dead, val(change.hp) <= 0.);
            last[i] = val(change.hp);
        }
        ticks += 1;
        assert!(ticks < 100);
    }
    // Both fire in every tick in which either does, the last included, so
    // both die in the same tick.
    assert_eq!(g.units().len(), 0);
}

#[test]
fn catch_up() {
    let mut g = game(
        0.25,
        vec![armed(unit_type("soldier", 1., 1000.), 5., 10., 0.25)],
        vec![vec![("soldier", 0., 0.), ("soldier", 0., 3.)], vec![("soldier", 3., 0.)]],
    );
    let mut hits = 0;
    for _ in 0..5 {
        hits += tick(&mut g).damage.len();
    }
    assert!(hits > 0);
    match g.catchup_msg() {
        ServerMsg::Update(update) => {
            assert_eq!(
                update.unit_create,
                vec![
                    UnitCreateMsg { id: 0, ty: 0, client: 0 },
                    UnitCreateMsg { id: 1, ty: 0, client: 0 },
                    UnitCreateMsg { id: 2, ty: 0, client: 1 },
                ]
            );
            assert_eq!(update.unit_change.len(), 3);
            assert!(update.damage.is_empty());
        }
        ServerMsg::Room(_) => panic!("the snapshot is an update"),
    }
}

#[test]
fn steering_is_capped_and_integrated() {
    let mut runner = unit_type("runner", 1., 100.);
    runner.speed = num(8.);
    runner.acc = num(16.);
    let mut g = game(0.25, vec![runner], vec![vec![("runner", 0., 0.)]]);
    g.process_inputs(&[order(0, 0, target(8., 0.))]);
    // The wanted velocity is (8, 0), the steering (32, 0), capped at 16.
    let update = tick(&mut g);
    let unit = g.units()[0];
    assert_eq!(vec2(unit.acc), Vec2::new(16., 0.));
    assert_eq!(vec2(unit.vel), Vec2::new(4., 0.));
    assert_eq!(vec2(unit.disp), Vec2::new(1., 0.));
    assert_eq!(vec2(unit.pos), Vec2::new(0., 0.));
    assert_eq!(vec2(update.unit_change[0].disp), Vec2::new(1., 0.));
    // The displacement is added at the start of the next tick.
    tick(&mut g);
    let unit = g.units()[0];
    assert_eq!(vec2(unit.pos), Vec2::new(1., 0.));
    assert_eq!(vec2(unit.vel), Vec2::new(8., 0.));
    assert_eq!(vec2(unit.disp), Vec2::new(2., 0.));
}

#[test]
fn overlapping_units_are_pushed_apart_beyond_the_cap() {
    let mut g = game(
        0.25,
        vec![unit_type("soldier", 1., 100.)],
        vec![vec![("soldier", 0., 0.), ("soldier", 0.5, 0.)]],
    );
    tick(&mut g);
    assert_eq!(vec2(g.units()[0].acc), Vec2::new(-150., 0.));
    assert_eq!(vec2(g.units()[1].acc), Vec2::new(150., 0.));
    assert_eq!(vec2(g.units()[1].vel), Vec2::new(37.5, 0.));
}

#[test]
fn truncate_caps_the_length_and_keeps_the_direction() {
    assert_eq!(truncate(Vec2::new(3., 4.), 5.), Vec2::new(3., 4.));
    assert_eq!(truncate(Vec2::new(3., 4.), 10.), Vec2::new(3., 4.));
    assert_eq!(truncate(Vec2::new(3., 4.), 2.5), Vec2::new(1.5, 2.));
    assert_eq!(truncate(Vec2::new(-6., 0.), 2.), Vec2::new(-2., 0.));
    assert_eq!(truncate(Vec2::zero(), 0.), Vec2::zero());
    let v = truncate(Vec2::new(1., -7.), 3.);
    assert!(v.magnitude() <= 3. * (1. + f32::EPSILON));
    assert!(v.x > 0. && v.y < 0.);
    assert!((v.x * -7. - v.y * 1.).abs() < 1e-5);
}

/// A game with summons, fights and deaths, for the tests that follow a game
/// through many ticks.
fn skirmish() -> Game {
    let mut g = game(
        0.25,
        vec![
            armed(unit_type("soldier", 1., 30.), 5., 10., 0.5),
            summoner(unit_type("builder", 1., 30.), "soldier", 0.75),
        ],
        vec![
            vec![("builder", 0., 0.), ("soldier", 2., 0.)],
            vec![("soldier", 4., 0.), ("builder", 6., 0.)],
        ],
    );
    g.process_inputs(&[
        order(0, 0, UnitCmd::Summon(0)),
        order(1, 3, UnitCmd::Summon(0)),
        order(0, 1, target(5., 1.)),
    ]);
    g
}

fn orders_at(tick: usize) -> Vec<(usize, ClientMsg)> {
    match tick {
        4 => vec![order(0, 0, UnitCmd::Summon(0)), order(1, 3, UnitCmd::Summon(0))],
        6 => vec![order(0, 4, target(6., -1.)), order(1, 5, target(0., 1.))],
        9 => vec![order(1, 0, target(9., 9.)), order(0, 0, UnitCmd::Summon(0))],
        _ => vec![],
    }
}

#[test]
fn ids_are_unique_and_rise() {
    let mut g = skirmish();
    let mut highest_seen: Option<usize> = None;
    for n in 0..40 {
        g.process_inputs(&orders_at(n));
        let next_before = g.next_unit_id();
        let update = tick(&mut g);
        let ids: Vec<usize> = g.units().iter().map(|u| u.id).collect();
        assert!(ids.windows(2).all(|pair| pair[0] < pair[1]));
        assert!(ids.iter().all(|id| *id < g.next_unit_id()));
        assert!(g.next_unit_id() >= next_before);
        for created in &update.unit_create {
            assert!(created.id >= next_before);
            assert!(highest_seen.map_or(true, |seen| created.id > seen));
            highest_seen = Some(created.id);
        }
    }
    assert!(highest_seen.is_some());
}

#[test]
fn a_unit_is_announced_once() {
    let mut g = skirmish();
    for n in 0..3 {
        g.process_inputs(&orders_at(n));
        tick(&mut g);
    }
    let mut announced: Vec<usize> = match g.catchup_msg() {
        ServerMsg::Update(update) => update.unit_create.iter().map(|c| c.id).collect(),
        ServerMsg::Room(_) => panic!("the snapshot is an update"),
    };
    let at_join = announced.len();
    for n in 3..40 {
        g.process_inputs(&orders_at(n));
        announced.extend(tick(&mut g).unit_create.iter().map(|c| c.id));
    }
    assert!(announced.len() > at_join);
    let mut distinct = announced.clone();
    distinct.sort();
    distinct.dedup();
    assert_eq!(distinct.len(), announced.len());
}

#[test]
fn a_dead_unit_does_not_come_back() {
    let mut g = skirmish();
    let mut gone: Vec<usize> = Vec::new();
    let mut dying: Vec<usize> = Vec::new();
    for n in 0..40 {
        g.process_inputs(&orders_at(n));
        let update = tick(&mut g);
        let ids: Vec<usize> = g.units().iter().map(|u| u.id).collect();
        assert!(dying.iter().all(|id| !ids.contains(id)));
        gone.append(&mut dying);
        assert!(gone.iter().all(|id| !ids.contains(id)));
        assert_eq!(update.unit_change.len(), ids.len());
        dying = g.units().iter().filter(|u| u.dead).map(|u| u.id).collect();
    }
    assert!(!gone.is_empty());
}

#[test]
fn no_hit_is_between_units_of_one_player() {
    let mut g = skirmish();
    let mut hits = 0;
    for n in 0..40 {
        g.process_inputs(&orders_at(n));
        let update = tick(&mut g);
        for hit in &update.damage {
            assert_ne!(g.units()[hit.from].client, g.units()[hit.to].client);
            hits += 1;
        }
        let mut pairs: Vec<(usize, usize)> = update.damage.iter().map(|d| (d.from, d.to)).collect();
        let in_order = pairs.clone();
        pairs.sort();
        pairs.dedup();
        assert_eq!(pairs, in_order);
    }
    assert!(hits > 0);
}

#[test]
fn the_same_orders_give_the_same_updates() {
    let mut first = skirmish();
    let mut second = skirmish();
    for n in 0..40 {
        first.process_inputs(&orders_at(n));
        second.process_inputs(&orders_at(n));
        let a = tick(&mut first);
        let b = tick(&mut second);
        assert_eq!(a, b);
        assert_eq!(format!("{:?}", a), format!("{:?}", b));
        assert_eq!(first.units(), second.units());
    }
}
