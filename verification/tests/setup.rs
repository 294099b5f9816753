use rts_core::game::Game;
use rts_core::game_desc::{
    AttackDesc, DescError, GameDesc, PlayerSpawnDesc, ResourceDesc, SummonDesc, UnitDesc, UnitSpawnDesc,
};
use rts_core::math::{Num, Vec2};
use rts_core::msg::{ServerMsg, UnitChangeMsg, UnitCreateMsg};
use rts_core::tick::{Phase, ARRIVAL_DISTANCE_BITS, REST_FORCE_BITS, REST_SPEED_BITS};
use rts_core::unit::UnitState;

fn num(x: f32) -> Num {
    Num { bits: x.to_bits() }
}

fn at(x: f32, y: f32) -> Vec2 {
    Vec2::new(num(x), num(y))
}

fn unit_type(key: &str, hp: f32) -> UnitDesc {
    UnitDesc {
        key: key.to_string(),
        summons: None,
        speed: num(10.0),
        acc: num(20.0),
        size: num(1.0),
        hp: num(hp),
        attack: None,
    }
}

fn spawn(key: &str, x: f32, y: f32) -> UnitSpawnDesc {
    UnitSpawnDesc { key: key.to_string(), pos: at(x, y) }
}

fn desc(units: Vec<UnitDesc>, player_spawns: Vec<Vec<UnitSpawnDesc>>) -> GameDesc {
    GameDesc {
        dt: num(0.25),
        resources: vec![ResourceDesc { key: "gold".to_string() }],
        units,
        player_spawns: player_spawns.into_iter().map(|units| PlayerSpawnDesc { units }).collect(),
    }
}

#[test]
fn zero_vector_has_clear_bits() {
    let v = Vec2::zero();
    assert_eq!(v.x, Num { bits: 0 });
    assert_eq!(v.y, Num { bits: 0 });
    assert_eq!(Num::zero(), num(0.0));
}

#[test]
fn new_spawns_slot_by_slot_with_rising_ids() {
    let d = desc(
        vec![unit_type("soldier", 100.0), unit_type("worker", 40.0)],
        vec![
            vec![spawn("worker", 0.0, 0.0), spawn("soldier", 1.0, 2.0)],
            vec![],
            vec![spawn("soldier", 10.0, 0.0)],
        ],
    );
    let game = Game::new(d).unwrap();
    let units = game.units();
    assert_eq!(units.len(), 3);
    let seen: Vec<(usize, usize, usize)> = units.iter().map(|u| (u.id, u.client, u.ty)).collect();
    assert_eq!(seen, vec![(0, 0, 1), (1, 0, 0), (2, 2, 0)]);
    assert_eq!(game.next_unit_id(), 3);
    assert_eq!(game.phase(), Phase::Ready);
}

#[test]
fn new_units_are_fresh() {
    let d = desc(vec![unit_type("soldier", 100.0)], vec![vec![spawn("soldier", 3.0, -4.0)]]);
    let game = Game::new(d).unwrap();
    let u = game.units()[0];
    assert_eq!(u.pos, at(3.0, -4.0));
    assert_eq!(u.vel, Vec2::zero());
    assert_eq!(u.acc, Vec2::zero());
    assert_eq!(u.disp, Vec2::zero());
    assert_eq!(u.state, UnitState::Idle);
    assert_eq!(u.summon, None);
    assert_eq!(u.hp, num(100.0));
    assert_eq!(u.reload, num(0.0));
    assert!(u.new);
    assert!(!u.dead);
}

#[test]
fn new_takes_the_first_type_with_the_key() {
    let d = desc(
        vec![unit_type("a", 1.0), unit_type("b", 2.0), unit_type("b", 3.0)],
        vec![vec![spawn("b", 0.0, 0.0)]],
    );
    let game = Game::new(d).unwrap();
    assert_eq!(game.units()[0].ty, 1);
    assert_eq!(game.units()[0].hp, num(2.0));
}

#[test]
fn new_rejects_an_unknown_key() {
    let d = desc(
        vec![unit_type("soldier", 100.0)],
        vec![
            vec![spawn("soldier", 0.0, 0.0)],
            vec![spawn("soldier", 1.0, 0.0), spawn("dragon", 2.0, 0.0), spawn("ghost", 3.0, 0.0)],
            vec![spawn("wizard", 4.0, 0.0)],
        ],
    );
    match Game::new(d) {
        Err(e) => assert_eq!(e, DescError::UnknownSpawn { player: 1, index: 1 }),
        Ok(_) => panic!("a game was set up with a unit of no type"),
    }
}

#[test]
fn new_with_no_players_is_empty() {
    let game = Game::new(desc(vec![], vec![])).unwrap();
    assert_eq!(game.units().len(), 0);
    assert_eq!(game.next_unit_id(), 0);
}

#[test]
fn find_type_and_find_summon_take_the_first_match() {
    let mut builder = unit_type("builder", 50.0);
    builder.summons = Some(vec![
        SummonDesc { key: "worker".to_string(), cost: vec![], time: num(0.5), hotkey: "w".to_string() },
        SummonDesc {
            key: "soldier".to_string(),
            cost: vec![(5, "gold".to_string())],
            time: num(2.0),
            hotkey: "s".to_string(),
        },
        SummonDesc { key: "worker".to_string(), cost: vec![], time: num(9.0), hotkey: "x".to_string() },
    ]);
    let d = desc(vec![unit_type("worker", 40.0), builder, unit_type("worker", 1.0)], vec![]);
    assert_eq!(d.find_type(&"worker".to_string()), Some(0));
    assert_eq!(d.find_type(&"builder".to_string()), Some(1));
    assert_eq!(d.find_type(&"dragon".to_string()), None);
    assert_eq!(d.units[1].find_summon(&"worker".to_string()).map(|s| s.time), Some(num(0.5)));
    assert_eq!(d.units[1].find_summon(&"soldier".to_string()).map(|s| s.time), Some(num(2.0)));
    assert!(d.units[1].find_summon(&"builder".to_string()).is_none());
    assert!(d.units[0].find_summon(&"worker".to_string()).is_none());
}

#[test]
fn find_unit_goes_by_id() {
    let d = desc(
        vec![unit_type("soldier", 100.0)],
        vec![vec![spawn("soldier", 0.0, 0.0), spawn("soldier", 1.0, 0.0), spawn("soldier", 2.0, 0.0)]],
    );
    let game = Game::new(d).unwrap();
    assert_eq!(game.find_unit(0), Some(0));
    assert_eq!(game.find_unit(1), Some(1));
    assert_eq!(game.find_unit(2), Some(2));
    assert_eq!(game.find_unit(3), None);
    assert_eq!(game.find_unit(usize::MAX), None);
}

#[test]
fn catchup_lists_every_living_unit() {
    let mut soldier = unit_type("soldier", 100.0);
    soldier.attack = Some(AttackDesc { range: num(5.0), damage: num(10.0), delay: num(1.0) });
    let d = desc(
        vec![soldier, unit_type("worker", 40.0)],
        vec![vec![spawn("worker", 0.0, 0.0)], vec![spawn("soldier", 10.0, 0.0)]],
    );
    let game = Game::new(d).unwrap();
    match game.catchup_msg() {
        ServerMsg::Update(update) => {
            assert_eq!(
                update.unit_create,
                vec![
                    UnitCreateMsg { id: 0, ty: 1, client: 0 },
                    UnitCreateMsg { id: 1, ty: 0, client: 1 },
                ]
            );
            assert_eq!(
                update.unit_change,
                vec![
                    UnitChangeMsg { pos: at(0.0, 0.0), disp: Vec2::zero(), hp: num(40.0), dead: false },
                    UnitChangeMsg { pos: at(10.0, 0.0), disp: Vec2::zero(), hp: num(100.0), dead: false },
                ]
            );
            assert!(update.damage.is_empty());
        },
        ServerMsg::Room(_) => panic!("the snapshot is an update"),
    }
}

#[test]
fn the_thresholds_are_the_numbers_they_stand_for() {
    assert_eq!(ARRIVAL_DISTANCE_BITS, 0.001f32.to_bits());
    assert_eq!(REST_SPEED_BITS, 1.0f32.to_bits());
    assert_eq!(REST_FORCE_BITS, 0.5f32.to_bits());
}

#[test]
fn numbers_compare_as_numbers() {
    let mut samples: Vec<f32> = vec![
        0.0,
        -0.0,
        1.0,
        -1.0,
        0.5,
        0.001,
        f32::MIN_POSITIVE,
        -f32::MIN_POSITIVE,
        f32::from_bits(1),
        f32::from_bits(0x8000_0001),
        f32::MAX,
        f32::MIN,
        f32::INFINITY,
        f32::NEG_INFINITY,
        f32::NAN,
        -f32::NAN,
        f32::from_bits(0x7f80_0001),
        f32::from_bits(0xffff_ffff),
        f32::EPSILON,
        1.0 + f32::EPSILON,
        1.0 - f32::EPSILON,
    ];
    // A fixed walk through the bit patterns.
    let mut bits: u32 = 0x1234_5678;
    for _ in 0..200 {
        bits = bits.wrapping_mul(1_664_525).wrapping_add(1_013_904_223);
        samples.push(f32::from_bits(bits));
    }
    for a in &samples {
        for b in &samples {
            assert_eq!(num(*a).lt(num(*b)), a < b, "{:?} < {:?}", a, b);
            assert_eq!(num(*a).le(num(*b)), a <= b, "{:?} <= {:?}", a, b);
        }
    }
}
