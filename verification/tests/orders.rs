use rts_core::game::Game;
use rts_core::game_desc::{GameDesc, PlayerSpawnDesc, SummonDesc, UnitDesc, UnitSpawnDesc};
use rts_core::math::{Num, Vec2};
use rts_core::msg::{ClientMsg, UnitCmd};
use rts_core::unit::{Summon, UnitState};

fn num(x: f32) -> Num {
    Num { bits: x.to_bits() }
}

fn at(x: f32, y: f32) -> Vec2 {
    Vec2::new(num(x), num(y))
}

fn unit_type(key: &str, summons: Option<Vec<(&str, f32)>>) -> UnitDesc {
    UnitDesc {
        key: key.to_string(),
        summons: summons.map(|table| {
            table
                .into_iter()
                .map(|(key, time)| SummonDesc {
                    key: key.to_string(),
                    cost: vec![],
                    time: num(time),
                    hotkey: String::new(),
                })
                .collect()
        }),
        speed: num(10.0),
        acc: num(20.0),
        size: num(1.0),
        hp: num(100.0),
        attack: None,
    }
}

/// Types: 0 builder (summons worker in 0.5 s, or in 7 s by a later entry),
/// 1 worker, 2 soldier. Player 0 has a builder (id 0) and a worker (id 1),
/// player 1 a builder (id 2).
fn game() -> Game {
    let desc = GameDesc {
        dt: num(0.25),
        resources: vec![],
        units: vec![
            unit_type("builder", Some(vec![("worker", 0.5), ("worker", 7.0)])),
            unit_type("worker", None),
            unit_type("soldier", Some(vec![])),
        ],
        player_spawns: vec![
            PlayerSpawnDesc {
                units: vec![
                    UnitSpawnDesc { key: "builder".to_string(), pos: at(0.0, 0.0) },
                    UnitSpawnDesc { key: "worker".to_string(), pos: at(5.0, 0.0) },
                ],
            },
            PlayerSpawnDesc {
                units: vec![UnitSpawnDesc { key: "builder".to_string(), pos: at(10.0, 0.0) }],
            },
        ],
    };
    Game::new(desc).unwrap()
}

fn orders(player: usize, cmds: Vec<(usize, UnitCmd)>) -> (usize, ClientMsg) {
    (player, ClientMsg::Commands(cmds))
}

#[test]
fn target_makes_the_unit_move() {
    let mut g = game();
    g.process_inputs(&[orders(0, vec![(1, UnitCmd::Target(at(5.0, 5.0)))])]);
    assert_eq!(g.units()[1].state, UnitState::Move(at(5.0, 5.0)));
    assert_eq!(g.units()[0].state, UnitState::Idle);
    assert_eq!(g.units()[2].state, UnitState::Idle);
}

#[test]
fn a_later_target_overrides_an_earlier_one() {
    let mut g = game();
    g.process_inputs(&[
        orders(0, vec![(0, UnitCmd::Target(at(1.0, 1.0))), (0, UnitCmd::Target(at(2.0, 2.0)))]),
        orders(0, vec![(0, UnitCmd::Target(at(3.0, 3.0)))]),
    ]);
    assert_eq!(g.units()[0].state, UnitState::Move(at(3.0, 3.0)));
}

#[test]
fn an_order_for_another_players_unit_is_passed_over() {
    let mut g = game();
    let before = g.units().clone();
    g.process_inputs(&[orders(
        0,
        vec![(2, UnitCmd::Target(at(5.0, 5.0))), (2, UnitCmd::Summon(1))],
    )]);
    assert_eq!(*g.units(), before);
}

#[test]
fn an_order_for_a_unit_that_is_not_there_is_passed_over() {
    let mut g = game();
    let before = g.units().clone();
    g.process_inputs(&[orders(
        0,
        vec![(3, UnitCmd::Target(at(5.0, 5.0))), (usize::MAX, UnitCmd::Summon(1))],
    )]);
    assert_eq!(*g.units(), before);
}

#[test]
fn a_summon_takes_the_time_of_the_first_entry() {
    let mut g = game();
    g.process_inputs(&[orders(1, vec![(2, UnitCmd::Summon(1))])]);
    assert_eq!(g.units()[2].summon, Some(Summon { unit_ty: 1, delay: num(0.5) }));
    assert_eq!(g.units()[0].summon, None);
}

#[test]
fn a_summon_of_a_type_that_is_not_listed_is_passed_over() {
    let mut g = game();
    g.process_inputs(&[orders(
        0,
        vec![
            // A builder cannot summon soldiers or builders.
            (0, UnitCmd::Summon(2)),
            (0, UnitCmd::Summon(0)),
            // A worker cannot summon at all.
            (1, UnitCmd::Summon(1)),
        ],
    )]);
    assert_eq!(g.units()[0].summon, None);
    assert_eq!(g.units()[1].summon, None);
}

#[test]
fn a_summon_of_a_type_that_does_not_exist_is_passed_over() {
    let mut g = game();
    g.process_inputs(&[orders(0, vec![(0, UnitCmd::Summon(3)), (0, UnitCmd::Summon(usize::MAX))])]);
    assert_eq!(g.units()[0].summon, None);
}

#[test]
fn a_summon_while_summoning_is_passed_over() {
    let mut g = game();
    g.process_inputs(&[orders(0, vec![(0, UnitCmd::Summon(1))])]);
    let busy = g.units()[0].summon;
    assert_eq!(busy, Some(Summon { unit_ty: 1, delay: num(0.5) }));
    g.process_inputs(&[orders(0, vec![(0, UnitCmd::Summon(1))])]);
    assert_eq!(g.units()[0].summon, busy);
}

#[test]
fn orders_change_neither_ids_nor_owners_nor_types() {
    let mut g = game();
    let before: Vec<(usize, usize, usize)> =
        g.units().iter().map(|u| (u.id, u.client, u.ty)).collect();
    g.process_inputs(&[
        orders(0, vec![(0, UnitCmd::Summon(1)), (1, UnitCmd::Target(at(9.0, 9.0)))]),
        orders(1, vec![(2, UnitCmd::Target(at(-1.0, 0.0))), (0, UnitCmd::Summon(1))]),
    ]);
    let after: Vec<(usize, usize, usize)> =
        g.units().iter().map(|u| (u.id, u.client, u.ty)).collect();
    assert_eq!(before, after);
    assert_eq!(g.next_unit_id(), 3);
}

#[test]
fn an_empty_batch_changes_nothing() {
    let mut g = game();
    let before = g.units().clone();
    g.process_inputs(&[]);
    g.process_inputs(&[orders(0, vec![])]);
    assert_eq!(*g.units(), before);
}
