//! What holds of every game, stated over the model and proved.
use crate::game_desc::GameDesc;
use crate::lemmas::{
    is_living_one, lemma_create_msgs, lemma_living, lemma_living_keeps, lemma_retire,
    lemma_retire_keeps,
};
use crate::math::Vec2;
use crate::model::{
    all_announced_ids, announced_ids, change_msg, create_msg, living, GameView, Happening,
};
use crate::msg::{ClientMsg, UnitCmd};
use crate::tick::{AimReport, MotionReport, SettleReport, TickEvent};
use crate::unit::Unit;
use vstd::prelude::*;

verus! {

impl GameView {
    /// The game has a unit with the id, owner and type of `u`.
    pub open spec fn has_unit(self, u: Unit) -> bool {
        exists|j: int|
            0 <= j < self.units.len() && (#[trigger] self.units[j]).id == u.id
                && self.units[j].client == u.client && self.units[j].ty == u.ty
    }

    /// The game may have come from `earlier`: it has the same description,
    /// its next id is no smaller, and each of its units with an id that
    /// `earlier` had given out was on the field of `earlier`, under the same
    /// id, with the same owner and type.
    pub open spec fn descends_from(self, earlier: GameView) -> bool {
        &&& self.desc == earlier.desc
        &&& earlier.next_unit_id <= self.next_unit_id
        &&& forall|k: int|
            0 <= k < self.units.len() && (#[trigger] self.units[k]).id < earlier.next_unit_id
                ==> earlier.has_unit(self.units[k])
    }

    /// The ids of the units on the field of a well-formed game are distinct.
    pub proof fn law_ids_unique(self)
        requires
            self.wf(),
        ensures
            forall|i: int, j: int|
                0 <= i < self.units.len() && 0 <= j < self.units.len() && i != j ==> (
                #[trigger] self.units[i]).id != (#[trigger] self.units[j]).id,
    {
        assert forall|i: int, j: int|
            0 <= i < self.units.len() && 0 <= j < self.units.len() && i != j implies (
        #[trigger] self.units[i]).id != (#[trigger] self.units[j]).id by {
            if i < j {
                assert(self.units[i].id < self.units[j].id);
            } else {
                assert(self.units[j].id < self.units[i].id);
            }
        }
    }

    /// Whatever happens to a well-formed game, it stays well formed: ids
    /// stay distinct and rising, no id is given twice, and no unit changes
    /// its id, owner or type.
    pub proof fn law_ids_stable(self, h: Happening)
        requires
            self.wf(),
        ensures
            self.next(h).wf(),
            self.next(h).descends_from(self),
    {
        let g = self.next(h);
        match h {
            Happening::Inputs(inputs) => {
                self.lemma_fed_wf(inputs);
                g.lemma_same_roster_descends(self);
            },
            Happening::Tick(event) => {
                if !self.accepts(event) {
                    self.lemma_same_roster_descends(self);
                } else {
                    match event {
                        TickEvent::Begin => {
                            self.lemma_begun_wf();
                            lemma_retire(self.units);
                            assert forall|k: int|
                                0 <= k < g.units.len() && (#[trigger] g.units[k]).id
                                    < self.next_unit_id implies self.has_unit(g.units[k]) by {
                                let j = choose|j: int|
                                    0 <= j < self.units.len() && !(#[trigger] self.units[j]).dead
                                        && self.units[j].announced() == g.units[k];
                                assert(self.units[j].id == g.units[k].id);
                            }
                        },
                        TickEvent::Moved(reports) => {
                            self.lemma_moved_wf(reports@);
                            assert forall|k: int|
                                0 <= k < g.units.len() && (#[trigger] g.units[k]).id
                                    < self.next_unit_id implies self.has_unit(g.units[k]) by {
                                if k < self.units.len() {
                                    assert(self.units[k].id == g.units[k].id);
                                }
                            }
                        },
                        TickEvent::Aimed(aims) => {
                            self.lemma_aimed_wf(aims@);
                            assert forall|k: int|
                                0 <= k < g.units.len() && (#[trigger] g.units[k]).id
                                    < self.next_unit_id implies self.has_unit(g.units[k]) by {
                                assert(self.units[k].id == g.units[k].id);
                            }
                        },
                        TickEvent::Settled(reports) => {
                            self.lemma_settled_wf(reports@);
                            assert forall|k: int|
                                0 <= k < g.units.len() && (#[trigger] g.units[k]).id
                                    < self.next_unit_id implies self.has_unit(g.units[k]) by {
                                assert(self.units[k].id == g.units[k].id);
                            }
                        },
                    }
                }
            },
        }
    }

    /// Through a whole run a well-formed game stays well formed, gives no id
    /// twice, and changes no unit's id, owner or type.
    pub proof fn law_ids_stable_in_run(self, hs: Seq<Happening>)
        requires
            self.wf(),
        ensures
            self.run(hs).wf(),
            self.run(hs).descends_from(self),
        decreases hs.len(),
    {
        if hs.len() == 0 {
            self.lemma_same_roster_descends(self);
        } else {
            let mid = self.run(hs.drop_last());
            self.law_ids_stable_in_run(hs.drop_last());
            mid.law_ids_stable(hs.last());
            let g = self.run(hs);
            assert(g == mid.next(hs.last()));
            assert forall|k: int|
                0 <= k < g.units.len() && (#[trigger] g.units[k]).id
                    < self.next_unit_id implies self.has_unit(g.units[k]) by {
                assert(mid.has_unit(g.units[k]));
                let j = choose|j: int|
                    0 <= j < mid.units.len() && (#[trigger] mid.units[j]).id == g.units[k].id
                        && mid.units[j].client == g.units[k].client && mid.units[j].ty
                        == g.units[k].ty;
                assert(self.has_unit(mid.units[j]));
            }
        }
    }

    /// A player who joins between two ticks and gets the snapshot, and after
    /// it the update of every tick, is told of no unit twice: the ids that
    /// the snapshot and the updates announce are all different.
    pub proof fn law_announced_once(self, hs: Seq<Happening>)
        requires
            self.wf(),
            self.phase is Ready,
        ensures
            (announced_ids(self.catchup().unit_create) + all_announced_ids(
                self.updates(hs),
            )).no_duplicates(),
    {
        let seen = announced_ids(self.catchup().unit_create);
        let alive = living(self.units);
        lemma_living(self.units);
        lemma_create_msgs(alive, true);
        assert forall|x: int| 0 <= x < seen.len() implies (#[trigger] seen[x])
            < self.next_unit_id by {
            assert(is_living_one(self.units, alive[x]));
            let j = choose|j: int|
                0 <= j < self.units.len() && !(#[trigger] self.units[j]).dead && self.units[j]
                    == alive[x];
            assert(self.unit_ok(self.units[j]));
        }
        assert forall|x: int, y: int|
            0 <= x < seen.len() && 0 <= y < seen.len() && x != y implies seen[x] != seen[y] by {
            if x < y {
                assert(alive[x].id < alive[y].id);
            } else {
                assert(alive[y].id < alive[x].id);
            }
        }
        self.lemma_told_run(seen, hs);
    }

    /// The snapshot holds the living and nobody else: it announces and
    /// reports each unit of the field that is not dead, in the field's
    /// order, and no report in it is of a dead unit.
    pub proof fn law_snapshot_of_the_living(self)
        requires
            self.wf(),
        ensures
            self.catchup().unit_create.len() == living(self.units).len(),
            self.catchup().unit_change.len() == living(self.units).len(),
            self.catchup().damage.len() == 0,
            forall|k: int|
                0 <= k < living(self.units).len() ==> {
                    let u = #[trigger] living(self.units)[k];
                    &&& is_living_one(self.units, u)
                    &&& self.catchup().unit_create[k] == create_msg(u)
                    &&& self.catchup().unit_change[k] == change_msg(u)
                    &&& !self.catchup().unit_change[k].dead
                },
            forall|j: int|
                0 <= j < self.units.len() && !self.units[j].dead ==> living(self.units).contains(
                    #[trigger] self.units[j],
                ),
    {
        lemma_living(self.units);
        lemma_create_msgs(living(self.units), true);
        assert forall|j: int|
            0 <= j < self.units.len() && !self.units[j].dead implies living(self.units).contains(
            #[trigger] self.units[j],
        ) by {
            lemma_living_keeps(self.units, j);
        }
    }

    /// A unit that is put on the field gets the next id, which no unit on
    /// the field has or is above: the game stays well formed, the units that
    /// were there stay as they are, and the new one stands after them, fresh
    /// and with the full hit points of its type.
    pub proof fn law_spawn_gives_a_fresh_id(self, ty: usize, client: usize, pos: Vec2)
        requires
            self.wf(),
            ty < self.desc.units@.len(),
            client < self.desc.player_spawns@.len(),
            self.next_unit_id < usize::MAX,
        ensures
            self.spawn(ty, client, pos).wf(),
            self.spawn(ty, client, pos).next_unit_id == self.next_unit_id + 1,
            self.spawn(ty, client, pos).units.len() == self.units.len() + 1,
            self.spawn(ty, client, pos).units.last() == Unit::fresh(
                self.next_unit_id as usize,
                ty,
                client,
                pos,
                self.desc.units@[ty as int].hp,
            ),
            forall|k: int|
                0 <= k < self.units.len() ==> {
                    &&& (#[trigger] self.spawn(ty, client, pos).units[k]) == self.units[k]
                    &&& self.units[k].id < self.next_unit_id
                },
    {
        let g = self.spawn(ty, client, pos);
        assert forall|k: int| 0 <= k < self.units.len() implies {
            &&& (#[trigger] g.units[k]) == self.units[k]
            &&& self.units[k].id < self.next_unit_id
        } by {
            assert(self.unit_ok(self.units[k]));
        }
        assert forall|i: int| 0 <= i < g.units.len() implies g.unit_ok(#[trigger] g.units[i]) by {
            if i < self.units.len() {
                assert(self.unit_ok(self.units[i]));
            }
        }
        assert forall|i: int, j: int| 0 <= i < j < g.units.len() implies (
        #[trigger] g.units[i]).id < (#[trigger] g.units[j]).id by {
            if j < self.units.len() {
                assert(self.units[i].id < self.units[j].id);
            } else {
                assert(self.unit_ok(self.units[i]));
            }
        }
        assert forall|k: int| 0 <= k < g.damages.len() implies g.hit_ok(
            #[trigger] g.damages[k],
        ) by {
            assert(self.hit_ok(self.damages[k]));
        }
    }

    /// Opening a tick takes the dead off the field and nobody else: the game
    /// stays well formed and keeps its next id, no unit left is dead or new,
    /// each unit left is a living unit of before, and no unit left has the
    /// id of a unit that was dead.
    pub proof fn law_opening_retires_the_dead(self)
        requires
            self.wf(),
        ensures
            self.begun().wf(),
            self.begun().next_unit_id == self.next_unit_id,
            self.begun().desc == self.desc,
            self.begun().units.len() == living(self.units).len(),
            forall|k: int|
                0 <= k < self.begun().units.len() ==> {
                    let u = #[trigger] self.begun().units[k];
                    &&& !u.dead
                    &&& !u.new
                    &&& u == living(self.units)[k].announced()
                    &&& is_living_one(self.units, living(self.units)[k])
                },
            forall|j: int, k: int|
                0 <= j < self.units.len() && self.units[j].dead && 0 <= k
                    < self.begun().units.len() ==> (#[trigger] self.begun().units[k]).id != (
                #[trigger] self.units[j]).id,
    {
        self.lemma_begun_wf();
        lemma_living(self.units);
        self.law_ids_unique();
        let alive = living(self.units);
        assert forall|j: int, k: int|
            0 <= j < self.units.len() && self.units[j].dead && 0 <= k
                < self.begun().units.len() implies (#[trigger] self.begun().units[k]).id != (
        #[trigger] self.units[j]).id by {
            assert(is_living_one(self.units, alive[k]));
            let from = choose|from: int|
                0 <= from < self.units.len() && !(#[trigger] self.units[from]).dead
                    && self.units[from] == alive[k];
            assert(self.units[from].id != self.units[j].id);
        }
    }

    /// Opening a tick takes nobody off the field who is alive.
    pub proof fn law_the_living_stay(self, j: int)
        requires
            0 <= j < self.units.len(),
            !self.units[j].dead,
        ensures
            self.begun().units.contains(self.units[j].announced()),
    {
        lemma_retire_keeps(self.units, j);
    }

    /// A unit that is dead when a tick is opened is off the field from then
    /// on: whatever happens after, no unit has its id.
    pub proof fn law_dead_units_leave(self, j: int, hs: Seq<Happening>)
        requires
            self.wf(),
            self.phase is Ready,
            0 <= j < self.units.len(),
            self.units[j].dead,
        ensures
            forall|k: int|
                0 <= k < self.begun().run(hs).units.len() ==> (#[trigger] self.begun().run(
                    hs,
                ).units[k]).id != self.units[j].id,
    {
        let open = self.begun();
        let id = self.units[j].id;
        self.lemma_begun_wf();
        lemma_retire(self.units);
        self.law_ids_unique();
        assert forall|i: int| 0 <= i < open.units.len() implies (#[trigger] open.units[i]).id
            != id by {
            let from = choose|from: int|
                0 <= from < self.units.len() && !(#[trigger] self.units[from]).dead
                    && self.units[from].announced() == open.units[i];
            assert(self.units[from].id != self.units[j].id);
        }
        open.law_ids_stable_in_run(hs);
        let later = open.run(hs);
        assert(self.unit_ok(self.units[j]));
        assert forall|k: int| 0 <= k < later.units.len() implies (#[trigger] later.units[k]).id
            != id by {
            if later.units[k].id == id {
                assert(open.has_unit(later.units[k]));
            }
        }
    }

    /// An order of a player changes no unit of another player.
    pub proof fn law_only_the_owner_commands(self, client: usize, id: usize, cmd: UnitCmd)
        ensures
            self.commanded(client, id, cmd).units.len() == self.units.len(),
            forall|k: int|
                0 <= k < self.units.len() && self.units[k].client != client
                    ==> #[trigger] self.commanded(client, id, cmd).units[k] == self.units[k],
    {
    }

    /// A batch of messages changes no unit whose owner has sent none of
    /// them.
    pub proof fn law_only_the_owner_commands_in_batch(
        self,
        inputs: Seq<(usize, ClientMsg)>,
        owner: usize,
    )
        requires
            forall|i: int| 0 <= i < inputs.len() ==> (#[trigger] inputs[i]).0 != owner,
        ensures
            self.fed(inputs).units.len() == self.units.len(),
            forall|k: int|
                0 <= k < self.units.len() && self.units[k].client == owner
                    ==> #[trigger] self.fed(inputs).units[k] == self.units[k],
        decreases inputs.len(),
    {
        if inputs.len() > 0 {
            let front = inputs.drop_last();
            assert forall|i: int| 0 <= i < front.len() implies (#[trigger] front[i]).0
                != owner by {
                assert(front[i] == inputs[i]);
            }
            self.law_only_the_owner_commands_in_batch(front, owner);
            self.fed(front).lemma_commanded_all_by_another(
                inputs.last().0,
                inputs.last().1.commands(),
                owner,
            );
        }
    }

    /// After the units have been moved, a unit that is still summoning has
    /// time left on its summon: the time is not zero or less.
    pub proof fn law_summons_have_time_left(self, reports: Seq<MotionReport>)
        ensures
            forall|k: int|
                0 <= k < self.moved(reports).units.len() ==> ((#[trigger] self.moved(
                    reports,
                ).units[k]).summon matches Some(s) ==> !s.delay.le_zero()),
    {
    }

    /// No unit is hit by a unit of its own player.
    pub proof fn law_no_friendly_fire(self, aims: Seq<AimReport>)
        requires
            self.wf(),
        ensures
            forall|k: int|
                0 <= k < self.aimed(aims).damages.len() ==> {
                    let d = #[trigger] self.aimed(aims).damages[k];
                    &&& d.from < self.units.len()
                    &&& d.to < self.units.len()
                    &&& self.units[d.from as int].client != self.units[d.to as int].client
                    &&& self.aimed(aims).units[d.from as int].client != self.aimed(
                        aims,
                    ).units[d.to as int].client
                },
    {
        self.lemma_len_bound();
        self.lemma_hits(aims, self.units.len() as int);
    }

    /// No update reports a hit between two units of one player: each hit it
    /// holds names two places of its own list of reports, and the units at
    /// these places have different owners.
    pub proof fn law_update_no_friendly_fire(self, reports: Seq<SettleReport>)
        requires
            self.wf(),
        ensures
            self.update(reports).unit_change.len() == self.units.len(),
            forall|k: int|
                0 <= k < self.update(reports).damage.len() ==> {
                    let d = #[trigger] self.update(reports).damage[k];
                    &&& d.from < self.units.len()
                    &&& d.to < self.units.len()
                    &&& self.reported(reports)[d.from as int].client != self.reported(
                        reports,
                    )[d.to as int].client
                },
    {
        assert forall|k: int| 0 <= k < self.update(reports).damage.len() implies {
            let d = #[trigger] self.update(reports).damage[k];
            &&& d.from < self.units.len()
            &&& d.to < self.units.len()
            &&& self.reported(reports)[d.from as int].client != self.reported(
                reports,
            )[d.to as int].client
        } by {
            assert(self.hit_ok(self.damages[k]));
        }
    }

    /// In one tick no unit hits the same unit twice: the hits come in the
    /// order of the attackers and, for one attacker, of its targets. Only a
    /// unit whose weapon was ready hits, and only one whose weapon is ready
    /// again as soon as it has fired hits more than one unit.
    pub proof fn law_one_hit_per_target(self, aims: Seq<AimReport>)
        requires
            self.wf(),
        ensures
            forall|k: int, l: int|
                0 <= k < l < self.aimed(aims).damages.len() ==> {
                    let a = #[trigger] self.aimed(aims).damages[k];
                    let b = #[trigger] self.aimed(aims).damages[l];
                    &&& a.from < b.from || (a.from == b.from && a.to < b.to)
                    &&& a.from == b.from ==> self.ready_after_shot(a.from as int)
                },
            forall|k: int|
                0 <= k < self.aimed(aims).damages.len() ==> self.ready(
                    aims,
                    (#[trigger] self.aimed(aims).damages[k]).from as int,
                ),
    {
        self.lemma_len_bound();
        self.lemma_hits_ordered(aims, self.units.len() as int);
    }

    /// Two games set up from the same description and taken through the same
    /// run send the same updates and end as the same game.
    pub proof fn law_replay(desc: GameDesc, first: Seq<Happening>, second: Seq<Happening>)
        requires
            first == second,
        ensures
            GameView::initial(desc).updates(first) == GameView::initial(desc).updates(second),
            GameView::initial(desc).run(first) == GameView::initial(desc).run(second),
    {
    }
}

} // verus!
