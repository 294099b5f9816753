//! The static description of a game: its timestep, its unit types, and the
//! units each player starts with.
use crate::math::{Num, Vec2};
use vstd::prelude::*;

verus! {

/// Everything about a game that is fixed before it starts.
#[derive(Clone, Debug)]
pub struct GameDesc {
    /// The length of one tick, in seconds.
    pub dt: Num,
    /// The resources the game names. The simulation does not use them.
    pub resources: Vec<ResourceDesc>,
    /// The unit types. A unit's type is its index in this list.
    pub units: Vec<UnitDesc>,
    /// For each player slot, the units it starts with.
    pub player_spawns: Vec<PlayerSpawnDesc>,
}

/// A resource, known by its key.
#[derive(Clone, Debug)]
pub struct ResourceDesc {
    pub key: String,
}

/// A unit type.
#[derive(Clone, Debug)]
pub struct UnitDesc {
    /// The name by which spawn lists and summon tables refer to this type.
    pub key: String,
    /// What a unit of this type can summon, if anything.
    pub summons: Option<Vec<SummonDesc>>,
    /// Top speed.
    pub speed: Num,
    /// Greatest steering acceleration.
    pub acc: Num,
    /// Diameter.
    pub size: Num,
    /// Hit points of a fresh unit.
    pub hp: Num,
    /// The unit's weapon, if it has one.
    pub attack: Option<AttackDesc>,
}

/// One entry of a summon table: a unit type that can be summoned, and how.
#[derive(Clone, Debug)]
pub struct SummonDesc {
    /// The key of the unit type that appears.
    pub key: String,
    /// What the summon costs. The simulation does not charge it.
    pub cost: Vec<(i32, String)>,
    /// Seconds from the order to the appearance.
    pub time: Num,
    /// The key a player presses to give the order.
    pub hotkey: String,
}

/// A weapon.
#[derive(Clone, Copy, Debug)]
pub struct AttackDesc {
    /// How far it reaches.
    pub range: Num,
    /// Hit points taken by one shot.
    pub damage: Num,
    /// Seconds between shots.
    pub delay: Num,
}

/// The units one player starts with.
#[derive(Clone, Debug)]
pub struct PlayerSpawnDesc {
    pub units: Vec<UnitSpawnDesc>,
}

/// One starting unit: its type, by key, and where it stands.
#[derive(Clone, Debug)]
pub struct UnitSpawnDesc {
    pub key: String,
    pub pos: Vec2,
}

/// What is wrong with a description.
#[derive(Clone, Copy, Debug, PartialEq, Eq, Structural)]
pub enum DescError {
    /// Two unit types have the same key: the types `first` and `second`.
    DuplicateKey { first: usize, second: usize },
    /// Entry `entry` of the summon table of unit type `unit` names a unit
    /// type that does not exist.
    UnknownSummon { unit: usize, entry: usize },
    /// Starting unit `index` of player slot `player` names a unit type that
    /// does not exist.
    UnknownSpawn { player: usize, index: usize },
}

impl GameDesc {
    /// No two of the first `n` unit types have the same key.
    pub open spec fn keys_distinct(&self, n: int) -> bool {
        forall|i: int, j: int|
            0 <= i < j < n && j < self.units@.len() ==> (#[trigger] self.units@[i]).key@ != (
            #[trigger] self.units@[j]).key@
    }

    /// The key of starting unit `k` of player slot `client`.
    pub open spec fn spawn_key(&self, client: int, k: int) -> Seq<char> {
        self.player_spawns@[client].units@[k].key@
    }

    /// The key of entry `entry` of the summon table of unit type `unit`.
    pub open spec fn summon_key(&self, unit: int, entry: int) -> Seq<char> {
        self.units@[unit].summon_table()[entry].key@
    }

    /// Every starting unit names a unit type that exists.
    pub open spec fn spawns_known(&self) -> bool {
        forall|c: int, k: int|
            0 <= c < self.player_spawns@.len() && 0 <= k < self.player_spawns@[c].units@.len()
                ==> self.has_type(#[trigger] self.spawn_key(c, k))
    }

    /// Starting unit `k` of player slot `client` is the first, in the order
    /// of slots and of units within a slot, to name a unit type that does
    /// not exist.
    pub open spec fn first_unknown_spawn(&self, client: int, k: int) -> bool {
        &&& 0 <= client < self.player_spawns@.len()
        &&& 0 <= k < self.player_spawns@[client].units@.len()
        &&& !self.has_type(self.spawn_key(client, k))
        &&& forall|c: int, j: int|
            0 <= c < self.player_spawns@.len() && 0 <= j < self.player_spawns@[c].units@.len()
                && (c < client || (c == client && j < k)) ==> self.has_type(
                #[trigger] self.spawn_key(c, j),
            )
    }

    /// Every entry of every summon table names a unit type that exists.
    pub open spec fn summons_known(&self) -> bool {
        forall|u: int, e: int|
            0 <= u < self.units@.len() && 0 <= e < self.units@[u].summon_table().len()
                ==> self.has_type(#[trigger] self.summon_key(u, e))
    }

    /// Entry `entry` of the summon table of unit type `unit` is the first, in
    /// the order of types and of entries within a table, to name a unit type
    /// that does not exist.
    pub open spec fn first_unknown_summon(&self, unit: int, entry: int) -> bool {
        &&& 0 <= unit < self.units@.len()
        &&& 0 <= entry < self.units@[unit].summon_table().len()
        &&& !self.has_type(self.summon_key(unit, entry))
        &&& forall|u: int, e: int|
            0 <= u < self.units@.len() && 0 <= e < self.units@[u].summon_table().len() && (u
                < unit || (u == unit && e < entry)) ==> self.has_type(
                #[trigger] self.summon_key(u, e),
            )
    }

    /// Checks the keys of a description: no two unit types may share one,
    /// and every summon table and every list of starting units may name only
    /// unit types that exist. Of several faults the one found first is
    /// reported: a shared key before an unknown summon, an unknown summon
    /// before an unknown starting unit, and within each kind the first in
    /// the description's order.
    pub fn validate(&self) -> (checked: Result<(), DescError>)
        ensures
            checked is Ok <==> self.keys_distinct(self.units@.len() as int) && self.summons_known()
                && self.spawns_known(),
            checked matches Err(DescError::DuplicateKey { first, second }) ==> {
                &&& first < second < self.units@.len()
                &&& self.is_type_of(self.units@[second as int].key@, first as int)
                &&& self.keys_distinct(second as int)
            },
            checked matches Err(DescError::UnknownSummon { unit, entry }) ==> {
                &&& self.keys_distinct(self.units@.len() as int)
                &&& self.first_unknown_summon(unit as int, entry as int)
            },
            checked matches Err(DescError::UnknownSpawn { player, index }) ==> {
                &&& self.keys_distinct(self.units@.len() as int)
                &&& self.summons_known()
                &&& self.first_unknown_spawn(player as int, index as int)
            },
    {
        let types = self.units.len();
        let mut second: usize = 0;
        while second < types
            invariant
                types == self.units@.len(),
                second <= types,
                self.keys_distinct(second as int),
            decreases types - second,
        {
            let found = self.find_type(&self.units[second].key);
            assert(self.has_type(self.units@[second as int].key@));
            if let Some(first) = found {
                if first != second {
                    return Err(DescError::DuplicateKey { first, second });
                }
            }
            second += 1;
        }
        let mut unit: usize = 0;
        while unit < types
            invariant
                types == self.units@.len(),
                unit <= types,
                self.keys_distinct(types as int),
                forall|u: int, e: int|
                    0 <= u < unit && 0 <= e < self.units@[u].summon_table().len()
                        ==> self.has_type(#[trigger] self.summon_key(u, e)),
            decreases types - unit,
        {
            if let Some(table) = &self.units[unit].summons {
                let mut entry: usize = 0;
                while entry < table.len()
                    invariant
                        types == self.units@.len(),
                        unit < types,
                        self.units@[unit as int].summon_table() == table@,
                        entry <= table@.len(),
                        self.keys_distinct(types as int),
                        forall|u: int, e: int|
                            0 <= u < self.units@.len() && 0 <= e
                                < self.units@[u].summon_table().len() && (u < unit || (u == unit
                                && e < entry)) ==> self.has_type(#[trigger] self.summon_key(u, e)),
                    decreases table@.len() - entry,
                {
                    if self.find_type(&table[entry].key).is_none() {
                        assert(!self.has_type(self.summon_key(unit as int, entry as int)));
                        return Err(DescError::UnknownSummon { unit, entry });
                    }
                    assert(self.has_type(self.summon_key(unit as int, entry as int)));
                    entry += 1;
                }
            }
            unit += 1;
        }
        let players = self.player_spawns.len();
        let mut player: usize = 0;
        while player < players
            invariant
                players == self.player_spawns@.len(),
                player <= players,
                self.keys_distinct(self.units@.len() as int),
                self.summons_known(),
                forall|c: int, k: int|
                    0 <= c < player && 0 <= k < self.player_spawns@[c].units@.len()
                        ==> self.has_type(#[trigger] self.spawn_key(c, k)),
            decreases players - player,
        {
            let list = &self.player_spawns[player].units;
            let mut index: usize = 0;
            while index < list.len()
                invariant
                    players == self.player_spawns@.len(),
                    player < players,
                    *list == self.player_spawns@[player as int].units,
                    index <= list@.len(),
                    self.keys_distinct(self.units@.len() as int),
                    self.summons_known(),
                    forall|c: int, k: int|
                        0 <= c < self.player_spawns@.len() && 0 <= k
                            < self.player_spawns@[c].units@.len() && (c < player || (c == player
                            && k < index)) ==> self.has_type(#[trigger] self.spawn_key(c, k)),
                decreases list@.len() - index,
            {
                if self.find_type(&list[index].key).is_none() {
                    assert(!self.has_type(self.spawn_key(player as int, index as int)));
                    return Err(DescError::UnknownSpawn { player, index });
                }
                assert(self.has_type(self.spawn_key(player as int, index as int)));
                index += 1;
            }
            player += 1;
        }
        Ok(())
    }

    /// `ty` is the first unit type whose key is `key`.
    pub open spec fn is_type_of(&self, key: Seq<char>, ty: int) -> bool {
        &&& 0 <= ty < self.units@.len()
        &&& self.units@[ty].key@ == key
        &&& forall|j: int| 0 <= j < ty ==> (#[trigger] self.units@[j]).key@ != key
    }

    /// Some unit type has the key `key`.
    pub open spec fn has_type(&self, key: Seq<char>) -> bool {
        exists|ty: int| 0 <= ty < self.units@.len() && (#[trigger] self.units@[ty]).key@ == key
    }

    /// The first unit type whose key is `key`, where there is one.
    pub open spec fn type_of(&self, key: Seq<char>) -> int {
        choose|ty: int| self.is_type_of(key, ty)
    }

    /// A key that some type has has a first type.
    pub proof fn lemma_has_type(&self, key: Seq<char>)
        requires
            self.has_type(key),
        ensures
            self.is_type_of(key, self.type_of(key)),
    {
        let t = choose|ty: int|
            0 <= ty < self.units@.len() && (#[trigger] self.units@[ty]).key@ == key;
        self.lemma_first_type(key, t);
    }

    /// Below any type with the key there is a first type with it.
    proof fn lemma_first_type(&self, key: Seq<char>, t: int)
        requires
            0 <= t < self.units@.len(),
            self.units@[t].key@ == key,
        ensures
            exists|ty: int| self.is_type_of(key, ty),
        decreases t,
    {
        if exists|j: int| 0 <= j < t && (#[trigger] self.units@[j]).key@ == key {
            let j = choose|j: int| 0 <= j < t && (#[trigger] self.units@[j]).key@ == key;
            self.lemma_first_type(key, j);
        } else {
            assert(self.is_type_of(key, t));
        }
    }

    /// A key that some type has is the key of exactly one first type, and
    /// `type_of` names it.
    pub proof fn lemma_type_of(&self, key: Seq<char>, ty: int)
        requires
            self.is_type_of(key, ty),
        ensures
            self.has_type(key),
            self.type_of(key) == ty,
    {
        let t = self.type_of(key);
        assert(self.is_type_of(key, t));
        if t < ty {
            assert(self.units@[t].key@ != key);
        }
        if ty < t {
            assert(self.units@[ty].key@ != key);
        }
    }

    /// Looks a unit type up by its key: the first type in the list that has it.
    pub fn find_type(&self, key: &String) -> (found: Option<usize>)
        ensures
            found is Some <==> self.has_type(key@),
            found matches Some(ty) ==> self.is_type_of(key@, ty as int) && ty == self.type_of(key@),
    {
        let mut i: usize = 0;
        while i < self.units.len()
            invariant
                i <= self.units@.len(),
                forall|j: int| 0 <= j < i ==> (#[trigger] self.units@[j]).key@ != key@,
            decreases self.units@.len() - i,
        {
            if self.units[i].key == *key {
                proof {
                    self.lemma_type_of(key@, i as int);
                }
                return Some(i);
            }
            i += 1;
        }
        None
    }
}

impl UnitDesc {
    /// The summon table, empty where the type has none.
    pub open spec fn summon_table(&self) -> Seq<SummonDesc> {
        match self.summons {
            Some(table) => table@,
            None => Seq::empty(),
        }
    }

    /// `i` is the first entry of the summon table whose key is `key`.
    pub open spec fn is_summon_of(&self, key: Seq<char>, i: int) -> bool {
        &&& 0 <= i < self.summon_table().len()
        &&& self.summon_table()[i].key@ == key
        &&& forall|j: int| 0 <= j < i ==> (#[trigger] self.summon_table()[j]).key@ != key
    }

    /// The summon table has an entry for `key`.
    pub open spec fn can_summon(&self, key: Seq<char>) -> bool {
        exists|i: int|
            0 <= i < self.summon_table().len() && (#[trigger] self.summon_table()[i]).key@ == key
    }

    /// The first entry of the summon table whose key is `key`, where there is
    /// one.
    pub open spec fn summon_of(&self, key: Seq<char>) -> int {
        choose|i: int| self.is_summon_of(key, i)
    }

    /// A key that the table lists has exactly one first entry, and
    /// `summon_of` names it.
    pub proof fn lemma_summon_of(&self, key: Seq<char>, i: int)
        requires
            self.is_summon_of(key, i),
        ensures
            self.can_summon(key),
            self.summon_of(key) == i,
    {
        let t = self.summon_of(key);
        assert(self.is_summon_of(key, t));
        if t < i {
            assert(self.summon_table()[t].key@ != key);
        }
        if i < t {
            assert(self.summon_table()[i].key@ != key);
        }
    }

    /// Looks up how this type summons the type with key `key`: the first
    /// entry of its summon table with that key.
    pub fn find_summon(&self, key: &String) -> (found: Option<&SummonDesc>)
        ensures
            found is Some <==> self.can_summon(key@),
            found matches Some(entry) ==> *entry == self.summon_table()[self.summon_of(key@)],
    {
        match &self.summons {
            None => None,
            Some(table) => {
                let mut i: usize = 0;
                while i < table.len()
                    invariant
                        self.summons == Some(*table),
                        i <= table@.len(),
                        forall|j: int| 0 <= j < i ==> (#[trigger] table@[j]).key@ != key@,
                    decreases table@.len() - i,
                {
                    if table[i].key == *key {
                        proof {
                            self.lemma_summon_of(key@, i as int);
                        }
                        return Some(&table[i]);
                    }
                    i += 1;
                }
                None
            },
        }
    }
}

} // verus!
