use rts_core::game_desc::{
    DescError, GameDesc, PlayerSpawnDesc, SummonDesc, UnitDesc, UnitSpawnDesc,
};
use rts_core::math::{Num, Vec2};
use rts_core::room::lowest_free_slot;

fn unit_type(key: &str, summons: &[&str]) -> UnitDesc {
    UnitDesc {
        key: key.to_string(),
        summons: if summons.is_empty() {
            None
        } else {
            Some(
                summons
                    .iter()
                    .map(|key| SummonDesc {
                        key: key.to_string(),
                        cost: vec![],
                        time: Num::zero(),
                        hotkey: String::new(),
                    })
                    .collect(),
            )
        },
        speed: Num::zero(),
        acc: Num::zero(),
        size: Num::zero(),
        hp: Num::zero(),
        attack: None,
    }
}

fn desc(units: Vec<UnitDesc>, spawns: Vec<Vec<&str>>) -> GameDesc {
    GameDesc {
        dt: Num::zero(),
        resources: vec![],
        units,
        player_spawns: spawns
            .into_iter()
            .map(|keys| PlayerSpawnDesc {
                units: keys
                    .into_iter()
                    .map(|key| UnitSpawnDesc { key: key.to_string(), pos: Vec2::zero() })
                    .collect(),
            })
            .collect(),
    }
}

#[test]
fn a_sound_description_passes() {
    let d = desc(
        vec![unit_type("builder", &["worker", "builder"]), unit_type("worker", &[])],
        vec![vec!["builder", "worker"], vec![], vec!["worker"]],
    );
    assert_eq!(d.validate(), Ok(()));
    assert_eq!(desc(vec![], vec![]).validate(), Ok(()));
}

#[test]
fn a_shared_key_is_found() {
    let d = desc(
        vec![
            unit_type("a", &[]),
            unit_type("b", &[]),
            unit_type("c", &[]),
            unit_type("b", &[]),
            unit_type("a", &[]),
        ],
        vec![],
    );
    assert_eq!(d.validate(), Err(DescError::DuplicateKey { first: 1, second: 3 }));
}

#[test]
fn an_unknown_summon_is_found() {
    let d = desc(
        vec![
            unit_type("a", &["b"]),
            unit_type("b", &["a", "x", "y"]),
            unit_type("c", &["z"]),
        ],
        vec![vec!["nobody"]],
    );
    assert_eq!(d.validate(), Err(DescError::UnknownSummon { unit: 1, entry: 1 }));
}

#[test]
fn an_unknown_starting_unit_is_found() {
    let d = desc(
        vec![unit_type("a", &["a"])],
        vec![vec!["a", "a"], vec![], vec!["a", "b", "c"], vec!["d"]],
    );
    assert_eq!(d.validate(), Err(DescError::UnknownSpawn { player: 2, index: 1 }));
}

#[test]
fn a_shared_key_comes_before_an_unknown_one() {
    let d = desc(vec![unit_type("a", &["x"]), unit_type("a", &[])], vec![vec!["y"]]);
    assert_eq!(d.validate(), Err(DescError::DuplicateKey { first: 0, second: 1 }));
}

#[test]
fn the_lowest_free_slot_is_given() {
    assert_eq!(lowest_free_slot(&vec![]), 0);
    assert_eq!(lowest_free_slot(&vec![0]), 1);
    assert_eq!(lowest_free_slot(&vec![1]), 0);
    assert_eq!(lowest_free_slot(&vec![2, 0, 1]), 3);
    assert_eq!(lowest_free_slot(&vec![3, 0, 1, 5]), 2);
    assert_eq!(lowest_free_slot(&vec![0, 0, 1, 1]), 2);
    assert_eq!(lowest_free_slot(&vec![usize::MAX, 1]), 0);
}
