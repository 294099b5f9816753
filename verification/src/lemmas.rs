//! What the laws of the game rest on: what each step of the model keeps.
use crate::game_desc::GameDesc;
use crate::model::{
    all_announced_ids, announced_ids, create_msg, create_msgs, due_summons, living, retire, spawn_at,
    spawns, GameView, Happening, Spawn,
};
use crate::msg::{ClientMsg, DamageMsg, UnitCmd, UnitCreateMsg, UpdateView};
use crate::tick::{AimReport, MotionReport, SettleReport, TickEvent};
use crate::unit::Unit;
use vstd::prelude::*;

verus! {

/// The summons that are due depend on nothing but the summons and the owners
/// of the units.
pub proof fn lemma_due_summons_same(
    a: Seq<Unit>,
    b: Seq<Unit>,
    reports: Seq<MotionReport>,
    n: int,
)
    requires
        n <= a.len(),
        n <= b.len(),
        forall|i: int|
            0 <= i < n ==> (#[trigger] a[i]).summon == b[i].summon && a[i].client == b[i].client,
    ensures
        due_summons(a, reports, n) == due_summons(b, reports, n),
    decreases n,
{
    if n > 0 {
        lemma_due_summons_same(a, b, reports, n - 1);
        assert(a[n - 1].summon == b[n - 1].summon);
    }
}

/// `u` is one of the units, and not dead.
pub open spec fn is_living_one(units: Seq<Unit>, u: Unit) -> bool {
    exists|j: int| 0 <= j < units.len() && !(#[trigger] units[j]).dead && units[j] == u
}

/// Every unit that is alive is among the living.
pub proof fn lemma_living_keeps(units: Seq<Unit>, j: int)
    requires
        0 <= j < units.len(),
        !units[j].dead,
    ensures
        living(units).contains(units[j]),
    decreases units.len(),
{
    reveal(Seq::filter);
    let front = units.drop_last();
    let last = units.last();
    let kept = living(front);
    if !last.dead {
        assert(living(units) =~= kept.push(last));
    } else {
        assert(living(units) =~= kept);
    }
    if j < units.len() - 1 {
        lemma_living_keeps(front, j);
        let k = choose|k: int| 0 <= k < kept.len() && kept[k] == front[j];
        assert(living(units)[k] == units[j]);
    } else {
        assert(living(units)[kept.len() as int] == units[j]);
    }
}

/// The living are units of the field that are not dead, and if ids rise
/// along the field they rise along the living.
pub proof fn lemma_living(units: Seq<Unit>)
    requires
        forall|i: int, j: int|
            0 <= i < j < units.len() ==> (#[trigger] units[i]).id < (#[trigger] units[j]).id,
    ensures
        living(units).len() <= units.len(),
        forall|k: int|
            0 <= k < living(units).len() ==> is_living_one(units, #[trigger] living(units)[k]),
        forall|k: int| 0 <= k < living(units).len() ==> !(#[trigger] living(units)[k]).dead,
        forall|k: int, l: int|
            0 <= k < l < living(units).len() ==> (#[trigger] living(units)[k]).id < (
            #[trigger] living(units)[l]).id,
    decreases units.len(),
{
    reveal(Seq::filter);
    if units.len() > 0 {
        let front = units.drop_last();
        lemma_living(front);
        let kept = living(front);
        let all = living(units);
        let last = units.last();
        if !last.dead {
            assert(all =~= kept.push(last));
        } else {
            assert(all =~= kept);
        }
        assert forall|k: int| 0 <= k < all.len() implies is_living_one(
            units,
            #[trigger] all[k],
        ) && !all[k].dead by {
            if k < kept.len() {
                assert(is_living_one(front, kept[k]));
                let j = choose|j: int|
                    0 <= j < front.len() && !(#[trigger] front[j]).dead && front[j] == kept[k];
                assert(units[j] == front[j]);
            } else {
                assert(units[units.len() - 1] == all[k]);
            }
        }
        assert forall|k: int, l: int| 0 <= k < l < all.len() implies (#[trigger] all[k]).id < (
        #[trigger] all[l]).id by {
            if l >= kept.len() {
                assert(is_living_one(front, kept[k]));
                let j = choose|j: int|
                    0 <= j < front.len() && !(#[trigger] front[j]).dead && front[j] == kept[k];
                assert(units[j] == front[j]);
                assert(units[j].id < units[units.len() - 1].id);
            } else {
                assert(kept[k].id < kept[l].id);
            }
        }
    } else {
        assert(living(units) =~= Seq::<Unit>::empty());
    }
}

/// Every unit that is alive stays when the dead are retired.
pub proof fn lemma_retire_keeps(units: Seq<Unit>, j: int)
    requires
        0 <= j < units.len(),
        !units[j].dead,
    ensures
        retire(units).contains(units[j].announced()),
{
    lemma_living_keeps(units, j);
    let k = choose|k: int| 0 <= k < living(units).len() && living(units)[k] == units[j];
    assert(retire(units)[k] == units[j].announced());
}

/// The units that stay when the dead are retired were on the field, alive,
/// and stay in their order; none of them is new or dead.
pub proof fn lemma_retire(units: Seq<Unit>)
    requires
        forall|i: int, j: int|
            0 <= i < j < units.len() ==> (#[trigger] units[i]).id < (#[trigger] units[j]).id,
    ensures
        retire(units).len() <= units.len(),
        forall|k: int|
            0 <= k < retire(units).len() ==> exists|j: int|
                0 <= j < units.len() && !(#[trigger] units[j]).dead && units[j].announced() == (
                #[trigger] retire(units)[k]),
        forall|k: int, l: int|
            0 <= k < l < retire(units).len() ==> (#[trigger] retire(units)[k]).id < (
            #[trigger] retire(units)[l]).id,
{
    lemma_living(units);
    let alive = living(units);
    let all = retire(units);
    assert forall|k: int| 0 <= k < all.len() implies exists|j: int|
        0 <= j < units.len() && !(#[trigger] units[j]).dead && units[j].announced() == (
        #[trigger] all[k]) by {
        assert(is_living_one(units, alive[k]));
        let j = choose|j: int|
            0 <= j < units.len() && !(#[trigger] units[j]).dead && units[j] == alive[k];
        assert(units[j].announced() == all[k]);
    }
    assert forall|k: int, l: int| 0 <= k < l < all.len() implies (#[trigger] all[k]).id < (
    #[trigger] all[l]).id by {
        assert(alive[k].id < alive[l].id);
    }
}

/// `m` announces one of the units: one that is new, or any if all are asked
/// for.
pub open spec fn announces_one(units: Seq<Unit>, all_units: bool, m: UnitCreateMsg) -> bool {
    exists|j: int|
        0 <= j < units.len() && (all_units || (#[trigger] units[j]).new) && create_msg(units[j])
            == m
}

/// The announcements of units whose ids rise are of units of the field that
/// are new, or of all of them if all are asked for, and their ids rise.
pub proof fn lemma_create_msgs(units: Seq<Unit>, all_units: bool)
    requires
        forall|i: int, j: int|
            0 <= i < j < units.len() ==> (#[trigger] units[i]).id < (#[trigger] units[j]).id,
    ensures
        create_msgs(units, all_units).len() <= units.len(),
        all_units ==> create_msgs(units, all_units).len() == units.len(),
        all_units ==> forall|k: int|
            0 <= k < units.len() ==> (#[trigger] create_msgs(units, all_units)[k]) == create_msg(
                units[k],
            ),
        forall|k: int|
            0 <= k < create_msgs(units, all_units).len() ==> announces_one(
                units,
                all_units,
                #[trigger] create_msgs(units, all_units)[k],
            ),
        forall|k: int, l: int|
            0 <= k < l < create_msgs(units, all_units).len() ==> (#[trigger] create_msgs(
                units,
                all_units,
            )[k]).id < (#[trigger] create_msgs(units, all_units)[l]).id,
    decreases units.len(),
{
    reveal(Seq::filter);
    let keep = |u: Unit| all_units || u.new;
    if units.len() > 0 {
        let front = units.drop_last();
        lemma_create_msgs(front, all_units);
        let before = create_msgs(front, all_units);
        let all = create_msgs(units, all_units);
        let last = units.last();
        if all_units || last.new {
            assert(units.filter(keep) =~= front.filter(keep).push(last));
            assert(all =~= before.push(create_msg(last)));
        } else {
            assert(units.filter(keep) =~= front.filter(keep));
            assert(all =~= before);
        }
        if all_units {
            assert forall|k: int| 0 <= k < units.len() implies (#[trigger] all[k]) == create_msg(
                units[k],
            ) by {
                if k < front.len() {
                    assert(before[k] == create_msg(front[k]));
                }
            }
        }
        assert forall|k: int| 0 <= k < all.len() implies announces_one(
            units,
            all_units,
            #[trigger] all[k],
        ) by {
            if k < before.len() {
                assert(announces_one(front, all_units, before[k]));
                let j = choose|j: int|
                    0 <= j < front.len() && (all_units || (#[trigger] front[j]).new) && create_msg(
                        front[j],
                    ) == before[k];
                assert(units[j] == front[j]);
            } else {
                assert(create_msg(units[units.len() - 1]) == all[k]);
            }
        }
        assert forall|k: int, l: int| 0 <= k < l < all.len() implies (#[trigger] all[k]).id < (
        #[trigger] all[l]).id by {
            if l >= before.len() {
                assert(announces_one(front, all_units, before[k]));
                let j = choose|j: int|
                    0 <= j < front.len() && (all_units || (#[trigger] front[j]).new) && create_msg(
                        front[j],
                    ) == before[k];
                assert(units[j] == front[j]);
                assert(units[j].id < units[units.len() - 1].id);
            } else {
                assert(before[k].id < before[l].id);
            }
        }
    } else {
        assert(create_msgs(units, all_units) =~= Seq::empty());
    }
}

/// `s` is a starting unit of one of the first `players` slots.
pub open spec fn is_spawn(desc: GameDesc, players: int, s: Spawn) -> bool {
    exists|c: int, k: int|
        #![trigger spawn_at(desc, c, k)]
        0 <= c < players && 0 <= k < desc.player_spawns@[c].units@.len() && s == spawn_at(
            desc,
            c,
            k,
        )
}

/// Each of the starting units of the first `players` slots is a starting unit
/// of one of these slots.
pub proof fn lemma_spawns(desc: GameDesc, players: int)
    requires
        0 <= players <= desc.player_spawns@.len(),
    ensures
        forall|n: int|
            0 <= n < spawns(desc, players).len() ==> is_spawn(
                desc,
                players,
                #[trigger] spawns(desc, players)[n],
            ),
    decreases players,
{
    if players > 0 {
        lemma_spawns(desc, players - 1);
        let front = spawns(desc, players - 1);
        let all = spawns(desc, players);
        assert forall|n: int| 0 <= n < all.len() implies is_spawn(
            desc,
            players,
            #[trigger] all[n],
        ) by {
            if n < front.len() {
                assert(all[n] == front[n]);
                assert(is_spawn(desc, players - 1, front[n]));
                let (c, k) = choose|c: int, k: int|
                    #![trigger spawn_at(desc, c, k)]
                    0 <= c < players - 1 && 0 <= k < desc.player_spawns@[c].units@.len()
                        && front[n] == spawn_at(desc, c, k);
                assert(all[n] == spawn_at(desc, c, k));
            } else {
                assert(all[n] == spawn_at(desc, players - 1, n - front.len()));
            }
        }
    }
}

/// The ids that an update announces, if there is an update.
pub open spec fn ids_of(update: Option<UpdateView>) -> Seq<usize> {
    match update {
        Some(u) => announced_ids(u.unit_create),
        None => Seq::empty(),
    }
}

impl GameView {
    /// A game whose starting units all name unit types that exist is well
    /// formed at its start: the unit at place `n` has id `n`.
    pub proof fn lemma_initial_wf(desc: GameDesc)
        requires
            desc.spawns_known(),
            spawns(desc, desc.player_spawns@.len() as int).len() <= usize::MAX,
        ensures
            GameView::initial(desc).wf(),
    {
        let players = desc.player_spawns@.len() as int;
        lemma_spawns(desc, players);
        let list = spawns(desc, players);
        let g = GameView::initial(desc);
        assert forall|n: int| 0 <= n < g.units.len() implies g.unit_ok(#[trigger] g.units[n]) by {
            assert(is_spawn(desc, players, list[n]));
            let (c, k) = choose|c: int, k: int|
                #![trigger spawn_at(desc, c, k)]
                0 <= c < players && 0 <= k < desc.player_spawns@[c].units@.len() && list[n]
                    == spawn_at(desc, c, k);
            let key = desc.spawn_key(c, k);
            assert(desc.has_type(key));
            desc.lemma_has_type(key);
        }
    }

    /// Opening a tick leaves a well-formed game well formed. No unit on the
    /// field is dead or new then, and no hit is left.
    pub proof fn lemma_begun_wf(self)
        requires
            self.wf(),
        ensures
            self.begun().wf(),
            forall|k: int|
                0 <= k < self.begun().units.len() ==> !(#[trigger] self.begun().units[k]).dead
                    && !self.begun().units[k].new,
    {
        lemma_retire(self.units);
        let g = self.begun();
        assert forall|k: int| 0 <= k < g.units.len() implies g.unit_ok(#[trigger] g.units[k])
            && !g.units[k].dead && !g.units[k].new by {
            let j = choose|j: int|
                0 <= j < self.units.len() && !(#[trigger] self.units[j]).dead
                    && self.units[j].announced() == g.units[k];
            assert(self.unit_ok(self.units[j]));
        }
    }

    /// Settling the tick leaves a well-formed game well formed, with the
    /// same roster. No unit is new then.
    pub proof fn lemma_settled_wf(self, reports: Seq<SettleReport>)
        requires
            self.wf(),
        ensures
            self.settled(reports).wf(),
            forall|k: int|
                0 <= k < self.settled(reports).units.len() ==> !(#[trigger] self.settled(
                    reports,
                ).units[k]).new,
    {
        let g = self.settled(reports);
        assert forall|i: int| 0 <= i < g.units.len() implies g.unit_ok(#[trigger] g.units[i]) by {
            assert(self.unit_ok(self.units[i]));
        }
        assert forall|i: int, j: int| 0 <= i < j < g.units.len() implies (
        #[trigger] g.units[i]).id < (#[trigger] g.units[j]).id by {
            assert(self.units[i].id < self.units[j].id);
        }
        assert forall|k: int| 0 <= k < g.damages.len() implies g.hit_ok(
            #[trigger] g.damages[k],
        ) by {
            assert(self.hit_ok(self.damages[k]));
        }
    }

    /// A game is well formed if it has the roster of a well-formed game and
    /// its summons are of types that exist.
    pub proof fn lemma_same_roster_wf(self, other: GameView)
        requires
            other.wf(),
            self.same_roster(other),
            forall|i: int|
                0 <= i < self.units.len() ==> ((#[trigger] self.units[i]).summon matches Some(s)
                    ==> s.unit_ty < self.desc.units@.len()),
        ensures
            self.wf(),
    {
        assert forall|i: int| 0 <= i < self.units.len() implies self.unit_ok(
            #[trigger] self.units[i],
        ) by {
            assert(other.unit_ok(other.units[i]));
        }
        assert forall|i: int, j: int| 0 <= i < j < self.units.len() implies (
        #[trigger] self.units[i]).id < (#[trigger] self.units[j]).id by {
            assert(other.units[i].id < other.units[j].id);
        }
        assert forall|k: int| 0 <= k < self.damages.len() implies self.hit_ok(
            #[trigger] self.damages[k],
        ) by {
            assert(other.hit_ok(other.damages[k]));
        }
    }

    /// Each summon that is due among the first `n` units is of a type that
    /// exists and for a player slot that exists; there are at most `n`.
    pub proof fn lemma_due_summons(self, reports: Seq<MotionReport>, n: int)
        requires
            self.wf(),
            0 <= n <= self.units.len(),
        ensures
            due_summons(self.units, reports, n).len() <= n,
            forall|k: int|
                0 <= k < due_summons(self.units, reports, n).len() ==> {
                    let order = #[trigger] due_summons(self.units, reports, n)[k];
                    &&& order.ty < self.desc.units@.len()
                    &&& order.client < self.desc.player_spawns@.len()
                },
        decreases n,
    {
        if n > 0 {
            self.lemma_due_summons(reports, n - 1);
            assert(self.unit_ok(self.units[n - 1]));
            let rest = due_summons(self.units, reports, n - 1);
            let all = due_summons(self.units, reports, n);
            assert forall|k: int| 0 <= k < all.len() implies {
                let order = #[trigger] all[k];
                &&& order.ty < self.desc.units@.len()
                &&& order.client < self.desc.player_spawns@.len()
            } by {
                if k < rest.len() {
                    assert(all[k] == rest[k]);
                }
            }
        }
    }

    /// Moving the units leaves a well-formed game well formed. The units
    /// that were on the field keep their places, ids, owners and types; the
    /// summoned units follow them, under the ids from the old next id on.
    pub proof fn lemma_moved_wf(self, reports: Seq<MotionReport>)
        requires
            self.wf(),
            self.next_unit_id + due_summons(self.units, reports, self.units.len() as int).len()
                <= usize::MAX,
        ensures
            self.moved(reports).wf(),
    {
        let n = self.units.len() as int;
        self.lemma_due_summons(reports, n);
        let g = self.moved(reports);
        assert forall|i: int| 0 <= i < g.units.len() implies g.unit_ok(#[trigger] g.units[i]) by {
            if i < n {
                assert(self.unit_ok(self.units[i]));
            }
        }
        assert forall|i: int, j: int| 0 <= i < j < g.units.len() implies (
        #[trigger] g.units[i]).id < (#[trigger] g.units[j]).id by {
            if j < n {
                assert(self.units[i].id < self.units[j].id);
            } else if i < n {
                assert(self.unit_ok(self.units[i]));
            }
        }
        assert forall|k: int| 0 <= k < g.damages.len() implies g.hit_ok(
            #[trigger] g.damages[k],
        ) by {
            assert(self.hit_ok(self.damages[k]));
        }
    }

    /// An order leaves a well-formed game well formed, with the same units
    /// under the same ids, owners and types, and the same next id.
    pub proof fn lemma_commanded_wf(self, client: usize, id: usize, cmd: UnitCmd)
        requires
            self.wf(),
        ensures
            self.commanded(client, id, cmd).wf(),
            self.commanded(client, id, cmd).same_roster(self),
    {
        let g = self.commanded(client, id, cmd);
        assert forall|i: int| 0 <= i < g.units.len() implies g.unit_ok(#[trigger] g.units[i]) by {
            assert(self.unit_ok(self.units[i]));
        }
        assert forall|k: int| 0 <= k < g.damages.len() implies g.hit_ok(
            #[trigger] g.damages[k],
        ) by {
            assert(self.hit_ok(self.damages[k]));
        }
    }

    /// A list of orders leaves a well-formed game well formed, with the same
    /// roster.
    pub proof fn lemma_commanded_all_wf(self, client: usize, cmds: Seq<(usize, UnitCmd)>)
        requires
            self.wf(),
        ensures
            self.commanded_all(client, cmds).wf(),
            self.commanded_all(client, cmds).same_roster(self),
        decreases cmds.len(),
    {
        if cmds.len() > 0 {
            self.lemma_commanded_all_wf(client, cmds.drop_last());
            self.commanded_all(client, cmds.drop_last()).lemma_commanded_wf(
                client,
                cmds.last().0,
                cmds.last().1,
            );
        }
    }

    /// A batch of messages leaves a well-formed game well formed, with the
    /// same roster.
    pub proof fn lemma_fed_wf(self, inputs: Seq<(usize, ClientMsg)>)
        requires
            self.wf(),
        ensures
            self.fed(inputs).wf(),
            self.fed(inputs).same_roster(self),
        decreases inputs.len(),
    {
        if inputs.len() > 0 {
            self.lemma_fed_wf(inputs.drop_last());
            self.fed(inputs.drop_last()).lemma_commanded_all_wf(
                inputs.last().0,
                inputs.last().1.commands(),
            );
        }
    }

    /// The targets of a unit among the first `n` are units among the first
    /// `n` that it may hit, each once, in rising order.
    pub proof fn lemma_targets(self, aims: Seq<AimReport>, i: int, n: int)
        ensures
            forall|k: int|
                0 <= k < self.targets(aims, i, n).len() ==> {
                    &&& 0 <= (#[trigger] self.targets(aims, i, n)[k]) < n
                    &&& self.can_hit(aims, i, self.targets(aims, i, n)[k])
                },
            forall|k: int, l: int|
                0 <= k < l < self.targets(aims, i, n).len() ==> self.targets(aims, i, n)[k]
                    < self.targets(aims, i, n)[l],
        decreases n,
    {
        if n > 0 {
            self.lemma_targets(aims, i, n - 1);
            let rest = self.targets(aims, i, n - 1);
            let all = self.targets(aims, i, n);
            assert forall|k: int| 0 <= k < all.len() implies {
                &&& 0 <= (#[trigger] all[k]) < n
                &&& self.can_hit(aims, i, all[k])
            } by {
                if k < rest.len() {
                    assert(all[k] == rest[k]);
                }
            }
            assert forall|k: int, l: int| 0 <= k < l < all.len() implies all[k] < all[l] by {
                assert(all[k] == rest[k]);
                if l < rest.len() {
                    assert(all[l] == rest[l]);
                }
            }
        }
    }

    /// Whom a unit hits, it may hit; it hits nobody twice.
    pub proof fn lemma_shots(self, aims: Seq<AimReport>, i: int, n: int)
        ensures
            forall|k: int|
                0 <= k < self.shots(aims, i, n).len() ==> {
                    &&& 0 <= (#[trigger] self.shots(aims, i, n)[k]) < n
                    &&& self.can_hit(aims, i, self.shots(aims, i, n)[k])
                },
            forall|k: int, l: int|
                0 <= k < l < self.shots(aims, i, n).len() ==> self.shots(aims, i, n)[k]
                    < self.shots(aims, i, n)[l],
    {
        self.lemma_targets(aims, i, n);
    }

    /// Every hit of the first `m` units is by one of them, on a unit on the
    /// field that the attacker may hit.
    pub proof fn lemma_hits(self, aims: Seq<AimReport>, m: int)
        requires
            m <= self.units.len() <= usize::MAX,
        ensures
            forall|k: int|
                0 <= k < self.hits(aims, m).len() ==> {
                    let d = #[trigger] self.hits(aims, m)[k];
                    &&& d.from < m
                    &&& d.to < self.units.len()
                    &&& self.can_hit(aims, d.from as int, d.to as int)
                },
        decreases m,
    {
        if m > 0 {
            self.lemma_hits(aims, m - 1);
            self.lemma_shots(aims, m - 1, self.units.len() as int);
            let rest = self.hits(aims, m - 1);
            let shots = self.shots(aims, m - 1, self.units.len() as int);
            let all = self.hits(aims, m);
            assert forall|k: int| 0 <= k < all.len() implies {
                let d = #[trigger] all[k];
                &&& d.from < m
                &&& d.to < self.units.len()
                &&& self.can_hit(aims, d.from as int, d.to as int)
            } by {
                if k < rest.len() {
                    assert(all[k] == rest[k]);
                } else {
                    let j = shots[k - rest.len()];
                    assert(all[k] == DamageMsg { from: (m - 1) as usize, to: j as usize });
                }
            }
        }
    }

    /// In a well-formed game the unit at place `i` has an id of at least `i`.
    pub proof fn lemma_id_at_least_place(self, i: int)
        requires
            self.wf(),
            0 <= i < self.units.len(),
        ensures
            self.units[i].id >= i,
        decreases i,
    {
        if i > 0 {
            self.lemma_id_at_least_place(i - 1);
            assert(self.units[i - 1].id < self.units[i].id);
        }
    }

    /// A well-formed game has no more units on the field than ids have been
    /// given out.
    pub proof fn lemma_len_bound(self)
        requires
            self.wf(),
        ensures
            self.units.len() <= self.next_unit_id,
    {
        if self.units.len() > 0 {
            let last = self.units.len() - 1;
            self.lemma_id_at_least_place(last);
            assert(self.unit_ok(self.units[last]));
        }
    }

    /// The attacks leave a well-formed game well formed.
    pub proof fn lemma_aimed_wf(self, aims: Seq<AimReport>)
        requires
            self.wf(),
        ensures
            self.aimed(aims).wf(),
    {
        self.law_no_friendly_fire(aims);
        let g = self.aimed(aims);
        assert forall|i: int| 0 <= i < g.units.len() implies g.unit_ok(#[trigger] g.units[i]) by {
            assert(self.unit_ok(self.units[i]));
        }
        assert forall|k: int| 0 <= k < g.damages.len() implies g.hit_ok(
            #[trigger] g.damages[k],
        ) by {}
    }

    /// A game with the roster of a well-formed game may have come from it.
    pub proof fn lemma_same_roster_descends(self, other: GameView)
        requires
            self.same_roster(other),
        ensures
            self.descends_from(other),
    {
        assert forall|k: int|
            0 <= k < self.units.len() && (#[trigger] self.units[k]).id
                < other.next_unit_id implies other.has_unit(self.units[k]) by {
            assert(other.units[k].id == self.units[k].id);
        }
    }

    /// The players have been told of the ids in `seen`, each once, and will
    /// not be told of any of them again: each has been given out, and during
    /// a tick no unit that is still to be announced has one of them.
    pub open spec fn told(self, seen: Seq<usize>) -> bool {
        &&& self.wf()
        &&& seen.no_duplicates()
        &&& forall|x: int| 0 <= x < seen.len() ==> (#[trigger] seen[x]) < self.next_unit_id
        &&& !(self.phase is Ready) ==> forall|k: int|
            0 <= k < self.units.len() && (#[trigger] self.units[k]).new ==> !seen.contains(
                self.units[k].id,
            )
    }

    /// An order leaves each unit as new as it was.
    pub proof fn lemma_commanded_new(self, client: usize, id: usize, cmd: UnitCmd)
        ensures
            self.commanded(client, id, cmd).units.len() == self.units.len(),
            forall|k: int|
                0 <= k < self.units.len() ==> (#[trigger] self.commanded(
                    client,
                    id,
                    cmd,
                ).units[k]).new == self.units[k].new,
    {
    }

    /// A list of orders leaves each unit as new as it was.
    pub proof fn lemma_commanded_all_new(self, client: usize, cmds: Seq<(usize, UnitCmd)>)
        ensures
            self.commanded_all(client, cmds).units.len() == self.units.len(),
            forall|k: int|
                0 <= k < self.units.len() ==> (#[trigger] self.commanded_all(
                    client,
                    cmds,
                ).units[k]).new == self.units[k].new,
        decreases cmds.len(),
    {
        if cmds.len() > 0 {
            self.lemma_commanded_all_new(client, cmds.drop_last());
            self.commanded_all(client, cmds.drop_last()).lemma_commanded_new(
                client,
                cmds.last().0,
                cmds.last().1,
            );
        }
    }

    /// A batch of messages leaves each unit as new as it was.
    pub proof fn lemma_fed_new(self, inputs: Seq<(usize, ClientMsg)>)
        ensures
            self.fed(inputs).units.len() == self.units.len(),
            forall|k: int|
                0 <= k < self.units.len() ==> (#[trigger] self.fed(inputs).units[k]).new
                    == self.units[k].new,
        decreases inputs.len(),
    {
        if inputs.len() > 0 {
            self.lemma_fed_new(inputs.drop_last());
            self.fed(inputs.drop_last()).lemma_commanded_all_new(
                inputs.last().0,
                inputs.last().1.commands(),
            );
        }
    }

    /// Whatever happens, the players are not told of an id they have been
    /// told of.
    pub proof fn lemma_told_next(self, seen: Seq<usize>, h: Happening)
        requires
            self.told(seen),
        ensures
            self.next(h).told(seen + ids_of(self.sends(h))),
    {
        let g = self.next(h);
        let more = ids_of(self.sends(h));
        self.law_ids_stable(h);
        match h {
            Happening::Inputs(inputs) => {
                assert(seen + more =~= seen);
                self.lemma_fed_wf(inputs);
                self.lemma_fed_new(inputs);
                assert forall|k: int|
                    0 <= k < g.units.len() && (#[trigger] g.units[k]).new && !(g.phase
                        is Ready) implies !seen.contains(g.units[k].id) by {
                    assert(self.units[k].new);
                }
            },
            Happening::Tick(event) => {
                if !self.accepts(event) {
                    assert(seen + more =~= seen);
                } else {
                    match event {
                        TickEvent::Begin => {
                            assert(seen + more =~= seen);
                            self.lemma_begun_wf();
                        },
                        TickEvent::Moved(reports) => {
                            assert(seen + more =~= seen);
                            assert forall|k: int|
                                0 <= k < g.units.len() && (
                                #[trigger] g.units[k]).new implies !seen.contains(
                                g.units[k].id,
                            ) by {
                                if k < self.units.len() {
                                    assert(self.units[k].new);
                                } else {
                                    if seen.contains(g.units[k].id) {
                                        let x = choose|x: int|
                                            0 <= x < seen.len() && seen[x] == g.units[k].id;
                                        assert(seen[x] < self.next_unit_id);
                                    }
                                }
                            }
                        },
                        TickEvent::Aimed(aims) => {
                            assert(seen + more =~= seen);
                            assert forall|k: int|
                                0 <= k < g.units.len() && (
                                #[trigger] g.units[k]).new implies !seen.contains(
                                g.units[k].id,
                            ) by {
                                assert(self.units[k].new);
                            }
                        },
                        TickEvent::Settled(reports) => {
                            let shown = self.reported(reports@);
                            let msgs = create_msgs(shown, false);
                            assert(more == announced_ids(msgs));
                            assert forall|i: int, j: int| 0 <= i < j < shown.len() implies (
                            #[trigger] shown[i]).id < (#[trigger] shown[j]).id by {
                                assert(self.units[i].id < self.units[j].id);
                            }
                            lemma_create_msgs(shown, false);
                            let all = seen + more;
                            assert forall|y: int| 0 <= y < more.len() implies !seen.contains(
                                #[trigger] more[y],
                            ) && more[y] < self.next_unit_id by {
                                assert(announces_one(shown, false, msgs[y]));
                                let j = choose|j: int|
                                    0 <= j < shown.len() && (false || (#[trigger] shown[j]).new)
                                        && create_msg(shown[j]) == msgs[y];
                                assert(self.units[j].new);
                                assert(self.unit_ok(self.units[j]));
                            }
                            assert forall|x: int, y: int|
                                0 <= x < all.len() && 0 <= y < all.len() && x != y implies all[x]
                                != all[y] by {
                                let n = seen.len() as int;
                                if x < n && y < n {
                                } else if x >= n && y >= n {
                                    if x < y {
                                        assert(msgs[x - n].id < msgs[y - n].id);
                                    } else {
                                        assert(msgs[y - n].id < msgs[x - n].id);
                                    }
                                } else if x < n {
                                    assert(!seen.contains(more[y - n]));
                                } else {
                                    assert(!seen.contains(more[x - n]));
                                }
                            }
                            assert forall|x: int| 0 <= x < all.len() implies (#[trigger] all[x])
                                < g.next_unit_id by {
                                let n = seen.len() as int;
                                if x >= n {
                                    assert(more[x - n] < self.next_unit_id);
                                }
                            }
                        },
                    }
                }
            },
        }
    }

    /// Through a whole run the players are not told of an id they have been
    /// told of.
    pub proof fn lemma_told_run(self, seen: Seq<usize>, hs: Seq<Happening>)
        requires
            self.told(seen),
        ensures
            self.run(hs).told(seen + all_announced_ids(self.updates(hs))),
        decreases hs.len(),
    {
        if hs.len() == 0 {
            assert(seen + all_announced_ids(self.updates(hs)) =~= seen);
        } else {
            let front = hs.drop_last();
            let mid = self.run(front);
            let before = seen + all_announced_ids(self.updates(front));
            self.lemma_told_run(seen, front);
            mid.lemma_told_next(before, hs.last());
            assert(self.run(hs) == mid.next(hs.last()));
            match mid.sends(hs.last()) {
                Some(update) => {
                    assert(self.updates(hs).drop_last() =~= self.updates(front));
                    assert(seen + all_announced_ids(self.updates(hs)) =~= before + ids_of(
                        Some(update),
                    ));
                },
                None => {
                    assert(seen + all_announced_ids(self.updates(hs)) =~= before + ids_of(
                        None::<UpdateView>,
                    ));
                },
            }
        }
    }

    /// The hits of the first `m` units come attacker by attacker and, for
    /// each attacker, target by target, in the field's order. Every attacker
    /// was ready, and one that hits twice is ready again after each shot.
    pub proof fn lemma_hits_ordered(self, aims: Seq<AimReport>, m: int)
        requires
            m <= self.units.len() <= usize::MAX,
        ensures
            forall|k: int, l: int|
                0 <= k < l < self.hits(aims, m).len() ==> {
                    let a = #[trigger] self.hits(aims, m)[k];
                    let b = #[trigger] self.hits(aims, m)[l];
                    &&& a.from < b.from || (a.from == b.from && a.to < b.to)
                    &&& a.from == b.from ==> self.ready_after_shot(a.from as int)
                },
            forall|k: int|
                0 <= k < self.hits(aims, m).len() ==> self.ready(
                    aims,
                    (#[trigger] self.hits(aims, m)[k]).from as int,
                ),
        decreases m,
    {
        if m > 0 {
            let n = self.units.len() as int;
            self.lemma_hits_ordered(aims, m - 1);
            self.lemma_hits(aims, m - 1);
            self.lemma_shots(aims, m - 1, n);
            let rest = self.hits(aims, m - 1);
            let shots = self.shots(aims, m - 1, n);
            let all = self.hits(aims, m);
            assert forall|k: int| 0 <= k < all.len() implies self.ready(
                aims,
                (#[trigger] all[k]).from as int,
            ) by {
                if k < rest.len() {
                    assert(all[k] == rest[k]);
                } else {
                    let j = shots[k - rest.len()];
                    assert(all[k] == DamageMsg { from: (m - 1) as usize, to: j as usize });
                }
            }
            assert forall|k: int, l: int| 0 <= k < l < all.len() implies {
                let a = #[trigger] all[k];
                let b = #[trigger] all[l];
                &&& a.from < b.from || (a.from == b.from && a.to < b.to)
                &&& a.from == b.from ==> self.ready_after_shot(a.from as int)
            } by {
                if l < rest.len() {
                    assert(all[k] == rest[k]);
                    assert(all[l] == rest[l]);
                } else {
                    let j = shots[l - rest.len()];
                    assert(all[l] == DamageMsg { from: (m - 1) as usize, to: j as usize });
                    if k < rest.len() {
                        assert(all[k] == rest[k]);
                        assert(rest[k].from < m - 1);
                    } else {
                        let i = shots[k - rest.len()];
                        assert(all[k] == DamageMsg { from: (m - 1) as usize, to: i as usize });
                        assert(i < j);
                    }
                }
            }
        }
    }

    /// A list of orders of one player changes no unit of another player.
    pub proof fn lemma_commanded_all_by_another(
        self,
        client: usize,
        cmds: Seq<(usize, UnitCmd)>,
        owner: usize,
    )
        requires
            client != owner,
        ensures
            self.commanded_all(client, cmds).units.len() == self.units.len(),
            forall|k: int|
                0 <= k < self.units.len() && self.units[k].client == owner
                    ==> #[trigger] self.commanded_all(client, cmds).units[k] == self.units[k],
        decreases cmds.len(),
    {
        if cmds.len() > 0 {
            self.lemma_commanded_all_by_another(client, cmds.drop_last(), owner);
            self.commanded_all(client, cmds.drop_last()).law_only_the_owner_commands(
                client,
                cmds.last().0,
                cmds.last().1,
            );
        }
    }
}

} // verus!
