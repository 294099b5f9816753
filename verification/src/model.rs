//! The game as a value of mathematics, and what each operation makes of it.
use crate::game_desc::GameDesc;
use crate::math::{Num, Vec2};
use crate::msg::{
    ClientMsg, DamageMsg, ServerView, UnitChangeMsg, UnitCmd, UnitCreateMsg, UpdateView,
};
use crate::tick::{ActionView, AimReport, MotionReport, Phase, SettleReport, TickEvent};
use crate::unit::{Summon, Unit, UnitState};
use vstd::prelude::*;

verus! {

/// A game: its description, the units on the field in the field's order, the
/// id the next unit will get, the hits of the current tick, and how far the
/// tick has come.
pub struct GameView {
    pub desc: GameDesc,
    pub units: Seq<Unit>,
    pub next_unit_id: nat,
    pub damages: Seq<DamageMsg>,
    pub phase: Phase,
}

/// A starting unit together with the player slot it belongs to.
pub struct Spawn {
    pub client: usize,
    pub key: Seq<char>,
    pub pos: Vec2,
}

/// One thing that happens to a game: a batch of messages from the players is
/// applied, or the tick is taken one stage further.
pub enum Happening {
    Inputs(Seq<(usize, ClientMsg)>),
    Tick(TickEvent),
}

/// A summon that has come due: what appears, for whom, and where.
#[derive(Clone, Copy, Debug)]
pub struct SpawnOrder {
    pub ty: usize,
    pub client: usize,
    pub pos: Vec2,
}

/// The announcement of a unit.
pub open spec fn create_msg(u: Unit) -> UnitCreateMsg {
    UnitCreateMsg { id: u.id, ty: u.ty, client: u.client }
}

/// The report on a unit.
pub open spec fn change_msg(u: Unit) -> UnitChangeMsg {
    UnitChangeMsg { pos: u.pos, disp: u.disp, hp: u.hp, dead: u.dead }
}

/// The announcements of the units: of all of them, or of the new ones only.
pub open spec fn create_msgs(units: Seq<Unit>, all_units: bool) -> Seq<UnitCreateMsg> {
    units.filter(|u: Unit| all_units || u.new).map_values(|u: Unit| create_msg(u))
}

/// The ids that a list of announcements names, in order.
pub open spec fn announced_ids(msgs: Seq<UnitCreateMsg>) -> Seq<usize> {
    msgs.map_values(|m: UnitCreateMsg| m.id)
}

/// The ids that a list of updates announces, update by update.
pub open spec fn all_announced_ids(updates: Seq<UpdateView>) -> Seq<usize>
    decreases updates.len(),
{
    if updates.len() == 0 {
        Seq::empty()
    } else {
        all_announced_ids(updates.drop_last()) + announced_ids(updates.last().unit_create)
    }
}

/// The reports on the units, one for each, in order.
pub open spec fn change_msgs(units: Seq<Unit>) -> Seq<UnitChangeMsg> {
    units.map_values(|u: Unit| change_msg(u))
}

/// The units that are not dead, in order.
pub open spec fn living(units: Seq<Unit>) -> Seq<Unit> {
    units.filter(|u: Unit| !u.dead)
}

/// The units that are not dead, in order, none of them new any more.
pub open spec fn retire(units: Seq<Unit>) -> Seq<Unit> {
    living(units).map_values(|u: Unit| u.announced())
}

/// The place of the unit with the given id, where there is one.
pub open spec fn index_of(units: Seq<Unit>, id: usize) -> Option<int> {
    if exists|k: int| 0 <= k < units.len() && (#[trigger] units[k]).id == id {
        Some(choose|k: int| 0 <= k < units.len() && (#[trigger] units[k]).id == id)
    } else {
        None
    }
}

/// The starting units of the first `players` player slots, slot by slot.
pub open spec fn spawns(desc: GameDesc, players: int) -> Seq<Spawn>
    decreases players,
{
    if players <= 0 {
        Seq::empty()
    } else {
        spawns(desc, players - 1) + slot_spawns(
            desc,
            players - 1,
            desc.player_spawns@[players - 1].units@.len() as int,
        )
    }
}

/// Starting unit `k` of player slot `client`.
pub open spec fn spawn_at(desc: GameDesc, client: int, k: int) -> Spawn {
    Spawn {
        client: client as usize,
        key: desc.player_spawns@[client].units@[k].key@,
        pos: desc.player_spawns@[client].units@[k].pos,
    }
}

/// The first `n` starting units of one player slot.
pub open spec fn slot_spawns(desc: GameDesc, client: int, n: int) -> Seq<Spawn> {
    Seq::new(n as nat, |k: int| spawn_at(desc, client, k))
}

/// The units that a list of starting units puts on the field: the unit at
/// place `n` has id `n`, the type its key names, and that type's hit points.
pub open spec fn spawned(desc: GameDesc, list: Seq<Spawn>) -> Seq<Unit> {
    Seq::new(
        list.len(),
        |n: int|
            Unit::fresh(
                n as usize,
                desc.type_of(list[n].key) as usize,
                list[n].client,
                list[n].pos,
                desc.units@[desc.type_of(list[n].key)].hp,
            ),
    )
}

/// A unit put where its displacement takes it.
pub open spec fn placed(u: Unit, r: MotionReport) -> Unit {
    Unit { pos: r.pos, ..u }
}

/// A unit under the forces of the tick. A moving unit that has arrived is
/// idle.
pub open spec fn forced(u: Unit, r: MotionReport) -> Unit {
    Unit {
        acc: r.acc,
        state: if u.state is Move && r.arrived() {
            UnitState::Idle
        } else {
            u.state
        },
        ..u
    }
}

/// A unit after its motion has been judged. A moving unit that is at rest is
/// idle.
pub open spec fn rested(u: Unit, r: MotionReport) -> Unit {
    Unit {
        state: if u.state is Move && r.at_rest() {
            UnitState::Idle
        } else {
            u.state
        },
        ..u
    }
}

/// A unit after the tick has been taken off its summon. A summon that is due
/// is over.
pub open spec fn timed(u: Unit, r: MotionReport) -> Unit {
    Unit {
        summon: match u.summon {
            Some(s) => if r.summon_due() {
                None
            } else {
                Some(Summon { unit_ty: s.unit_ty, delay: r.summon_delay })
            },
            None => None,
        },
        ..u
    }
}

/// A unit after it has been moved: put in its place, put under the forces,
/// judged, and its summon timed, in this order.
pub open spec fn steered(u: Unit, r: MotionReport) -> Unit {
    timed(rested(forced(placed(u, r), r), r), r)
}

/// The summons that have come due among the first `n` units, in order.
pub open spec fn due_summons(units: Seq<Unit>, reports: Seq<MotionReport>, n: int) -> Seq<
    SpawnOrder,
>
    decreases n,
{
    if n <= 0 {
        Seq::empty()
    } else {
        let rest = due_summons(units, reports, n - 1);
        match units[n - 1].summon {
            Some(s) => if reports[n - 1].summon_due() {
                rest.push(
                    SpawnOrder {
                        ty: s.unit_ty,
                        client: units[n - 1].client,
                        pos: reports[n - 1].spawn_pos,
                    },
                )
            } else {
                rest
            },
            None => rest,
        }
    }
}

/// A unit after damage and velocity have been settled. A unit whose hit
/// points are zero or less is dead.
pub open spec fn settled_unit(u: Unit, r: SettleReport) -> Unit {
    Unit { hp: r.hp, dead: u.dead || r.hp.le_zero(), vel: r.vel, disp: r.disp, ..u }
}

impl GameView {
    /// What holds of every unit on the field.
    pub open spec fn unit_ok(self, u: Unit) -> bool {
        &&& u.ty < self.desc.units@.len()
        &&& u.client < self.desc.player_spawns@.len()
        &&& u.id < self.next_unit_id
        &&& u.summon matches Some(s) ==> s.unit_ty < self.desc.units@.len()
    }

    /// What holds of every hit: it names two units on the field that belong
    /// to different players.
    pub open spec fn hit_ok(self, d: DamageMsg) -> bool {
        &&& d.from < self.units.len()
        &&& d.to < self.units.len()
        &&& self.units[d.from as int].client != self.units[d.to as int].client
    }

    /// The game is well formed: every unit has a type and an owner that
    /// exist, ids rise strictly along the field and stay below the next id,
    /// and no hit is between units of one player.
    pub open spec fn wf(self) -> bool {
        &&& self.next_unit_id <= usize::MAX
        &&& forall|i: int| 0 <= i < self.units.len() ==> self.unit_ok(#[trigger] self.units[i])
        &&& forall|i: int, j: int|
            0 <= i < j < self.units.len() ==> (#[trigger] self.units[i]).id < (
            #[trigger] self.units[j]).id
        &&& forall|k: int| 0 <= k < self.damages.len() ==> self.hit_ok(#[trigger] self.damages[k])
    }

    /// The two games have the same description, next id, stage and hits, and
    /// the same units in the same places: place by place the same id, owner
    /// and type.
    pub open spec fn same_roster(self, other: GameView) -> bool {
        &&& self.desc == other.desc
        &&& self.next_unit_id == other.next_unit_id
        &&& self.phase == other.phase
        &&& self.damages == other.damages
        &&& self.units.len() == other.units.len()
        &&& forall|i: int|
            0 <= i < self.units.len() ==> {
                &&& (#[trigger] self.units[i]).id == other.units[i].id
                &&& self.units[i].client == other.units[i].client
                &&& self.units[i].ty == other.units[i].ty
            }
    }

    /// The game at its start.
    pub open spec fn initial(desc: GameDesc) -> GameView {
        let list = spawns(desc, desc.player_spawns@.len() as int);
        GameView {
            desc,
            units: spawned(desc, list),
            next_unit_id: list.len(),
            damages: Seq::empty(),
            phase: Phase::Ready,
        }
    }

    /// What the snapshot for a joining player holds: every living unit
    /// announced, every living unit reported, no hits. A unit that is dead
    /// and still waits on the field to be taken off is in neither list.
    pub open spec fn catchup(self) -> UpdateView {
        UpdateView {
            unit_create: create_msgs(living(self.units), true),
            unit_change: change_msgs(living(self.units)),
            damage: Seq::empty(),
        }
    }

    // Orders

    /// A unit after its owner has given it an order. A summon is taken up
    /// only if the type exists, the unit's own type lists it, and the unit is
    /// not summoning already; the first matching entry of the table sets the
    /// time.
    pub open spec fn obeys(self, u: Unit, cmd: UnitCmd) -> Unit {
        match cmd {
            UnitCmd::Target(pos) => Unit { state: UnitState::Move(pos), ..u },
            UnitCmd::Summon(ty) => {
                let own = self.desc.units@[u.ty as int];
                if ty < self.desc.units@.len() && u.summon is None && own.can_summon(
                    self.desc.units@[ty as int].key@,
                ) {
                    let entry = own.summon_table()[own.summon_of(self.desc.units@[ty as int].key@)];
                    Unit { summon: Some(Summon { unit_ty: ty, delay: entry.time }), ..u }
                } else {
                    u
                }
            },
        }
    }

    /// The game after one order of player `client` for the unit with id
    /// `id`. An order for a unit that is not on the field, or that another
    /// player owns, changes nothing.
    pub open spec fn commanded(self, client: usize, id: usize, cmd: UnitCmd) -> GameView {
        match index_of(self.units, id) {
            Some(k) => if self.units[k].client == client {
                GameView { units: self.units.update(k, self.obeys(self.units[k], cmd)), ..self }
            } else {
                self
            },
            None => self,
        }
    }

    /// The game after a list of orders of one player, taken in order.
    pub open spec fn commanded_all(self, client: usize, cmds: Seq<(usize, UnitCmd)>) -> GameView {
        cmds.fold_left(self, |g: GameView, c: (usize, UnitCmd)| g.commanded(client, c.0, c.1))
    }

    /// The game after a batch of messages, taken in order.
    pub open spec fn fed(self, inputs: Seq<(usize, ClientMsg)>) -> GameView {
        inputs.fold_left(
            self,
            |g: GameView, input: (usize, ClientMsg)| g.commanded_all(input.0, input.1.commands()),
        )
    }

    // The stages of a tick

    /// The game with other units in the field's place.
    pub open spec fn with_units(self, units: Seq<Unit>) -> GameView {
        GameView { units, ..self }
    }

    /// The game with one more unit, fresh and with full hit points, at the
    /// end of the field under the next id.
    pub open spec fn spawn(self, ty: usize, client: usize, pos: Vec2) -> GameView {
        GameView {
            units: self.units.push(
                Unit::fresh(
                    self.next_unit_id as usize,
                    ty,
                    client,
                    pos,
                    self.desc.units@[ty as int].hp,
                ),
            ),
            next_unit_id: self.next_unit_id + 1,
            ..self
        }
    }

    /// The game after a tick has been opened: the dead are gone, no unit is
    /// new, and no hit is left from the tick before.
    pub open spec fn begun(self) -> GameView {
        GameView {
            units: retire(self.units),
            damages: Seq::empty(),
            phase: Phase::Moving,
            ..self
        }
    }

    /// The game with each unit put where its displacement takes it.
    pub open spec fn placed_all(self, reports: Seq<MotionReport>) -> GameView {
        self.with_units(Seq::new(self.units.len(), |i: int| placed(self.units[i], reports[i])))
    }

    /// The game with each unit under the forces of the tick.
    pub open spec fn forced_all(self, reports: Seq<MotionReport>) -> GameView {
        self.with_units(Seq::new(self.units.len(), |i: int| forced(self.units[i], reports[i])))
    }

    /// The game with the motion of each unit judged.
    pub open spec fn rested_all(self, reports: Seq<MotionReport>) -> GameView {
        self.with_units(Seq::new(self.units.len(), |i: int| rested(self.units[i], reports[i])))
    }

    /// The game with the tick taken off each summon and the summons that are
    /// due carried out.
    pub open spec fn resolved(self, reports: Seq<MotionReport>) -> GameView {
        let orders = due_summons(self.units, reports, self.units.len() as int);
        GameView {
            units: Seq::new(self.units.len(), |i: int| timed(self.units[i], reports[i]))
                + self.summoned(orders),
            next_unit_id: self.next_unit_id + orders.len(),
            ..self
        }
    }

    /// The units that appear when the summons that are due are carried out:
    /// one for each, in order, with ids from the next id on and full hit
    /// points.
    pub open spec fn summoned(self, orders: Seq<SpawnOrder>) -> Seq<Unit> {
        Seq::new(
            orders.len(),
            |k: int|
                Unit::fresh(
                    (self.next_unit_id + k) as usize,
                    orders[k].ty,
                    orders[k].client,
                    orders[k].pos,
                    self.desc.units@[orders[k].ty as int].hp,
                ),
        )
    }

    /// The game after the units have been moved: each unit is where the
    /// report puts it, a moving unit that has arrived or is at rest is idle,
    /// each summon has its new time or, if due, is over, and the summoned
    /// units stand at the end of the field.
    pub open spec fn moved(self, reports: Seq<MotionReport>) -> GameView {
        let orders = due_summons(self.units, reports, self.units.len() as int);
        GameView {
            units: Seq::new(self.units.len(), |i: int| steered(self.units[i], reports[i]))
                + self.summoned(orders),
            next_unit_id: self.next_unit_id + orders.len(),
            phase: Phase::Aiming,
            ..self
        }
    }

    /// Unit `i` may hit unit `j`: they are two units of different players,
    /// `i` has a weapon, and `j` is nearer to it than the weapon's range.
    pub open spec fn can_hit(self, aims: Seq<AimReport>, i: int, j: int) -> bool {
        &&& i != j
        &&& self.units[i].client != self.units[j].client
        &&& self.desc.units@[self.units[i].ty as int].attack matches Some(attack)
        &&& aims[i].distance@[j].lt_spec(attack.range)
    }

    /// The weapon of unit `i` is ready when the attacks start: the time left
    /// until it is, the tick taken off, is zero or less.
    pub open spec fn ready(self, aims: Seq<AimReport>, i: int) -> bool {
        aims[i].reload.le_zero()
    }

    /// The weapon of unit `i` is ready again as soon as it has fired: its
    /// delay is zero or less.
    pub open spec fn ready_after_shot(self, i: int) -> bool {
        self.desc.units@[self.units[i].ty as int].attack matches Some(attack)
            && attack.delay.le_zero()
    }

    /// The units among the first `n` that unit `i` may hit, in order.
    pub open spec fn targets(self, aims: Seq<AimReport>, i: int, n: int) -> Seq<int>
        decreases n,
    {
        if n <= 0 {
            Seq::empty()
        } else {
            let rest = self.targets(aims, i, n - 1);
            if self.can_hit(aims, i, n - 1) {
                rest.push(n - 1)
            } else {
                rest
            }
        }
    }

    /// The units among the first `n` that unit `i` hits in the tick. A unit
    /// fires whenever it may hit and its weapon is ready, and a shot starts
    /// the weapon's delay. So it hits none if its weapon is not ready; else
    /// the first it may hit, and the others it may hit too if the weapon is
    /// ready again as soon as it has fired.
    pub open spec fn shots(self, aims: Seq<AimReport>, i: int, n: int) -> Seq<int> {
        let all = self.targets(aims, i, n);
        if !self.ready(aims, i) {
            Seq::empty()
        } else if self.ready_after_shot(i) || all.len() == 0 {
            all
        } else {
            seq![all[0]]
        }
    }

    /// The hits of the first `m` units, attacker by attacker.
    pub open spec fn hits(self, aims: Seq<AimReport>, m: int) -> Seq<DamageMsg>
        decreases m,
    {
        if m <= 0 {
            Seq::empty()
        } else {
            self.hits(aims, m - 1) + self.shots(aims, m - 1, self.units.len() as int).map_values(
                |j: int| DamageMsg { from: (m - 1) as usize, to: j as usize },
            )
        }
    }

    /// The time left until the weapon of unit `i` is ready, after it has
    /// gone through the first `n` units: its weapon's delay if it has fired,
    /// else what the report says.
    pub open spec fn reloaded_upto(self, aims: Seq<AimReport>, i: int, n: int) -> Num {
        if self.shots(aims, i, n).len() > 0 {
            self.desc.units@[self.units[i].ty as int].attack->0.delay
        } else {
            aims[i].reload
        }
    }

    /// Unit `i` after the attacks: if it has fired, its weapon's delay is to
    /// run; if not, the time left is what the report says.
    pub open spec fn reloaded(self, aims: Seq<AimReport>, i: int) -> Unit {
        Unit {
            reload: self.reloaded_upto(aims, i, self.units.len() as int),
            ..self.units[i]
        }
    }

    /// The game after the attacks.
    pub open spec fn aimed(self, aims: Seq<AimReport>) -> GameView {
        GameView {
            units: Seq::new(self.units.len(), |i: int| self.reloaded(aims, i)),
            damages: self.hits(aims, self.units.len() as int),
            phase: Phase::Settling,
            ..self
        }
    }

    /// The units as the update of the tick reports them.
    pub open spec fn reported(self, reports: Seq<SettleReport>) -> Seq<Unit> {
        Seq::new(self.units.len(), |i: int| settled_unit(self.units[i], reports[i]))
    }

    /// The update of the tick: the new units announced, every unit reported,
    /// and the hits of the tick.
    pub open spec fn update(self, reports: Seq<SettleReport>) -> UpdateView {
        UpdateView {
            unit_create: create_msgs(self.reported(reports), false),
            unit_change: change_msgs(self.reported(reports)),
            damage: self.damages,
        }
    }

    /// The game after the tick: the units as reported, none of them new.
    pub open spec fn settled(self, reports: Seq<SettleReport>) -> GameView {
        GameView {
            units: self.reported(reports).map_values(|u: Unit| u.announced()),
            phase: Phase::Ready,
            ..self
        }
    }

    /// The event fits the game: it is the one the tick waits for, it has one
    /// entry for each unit, and ids are left for the units it brings.
    pub open spec fn accepts(self, event: TickEvent) -> bool {
        match event {
            TickEvent::Begin => self.phase is Ready,
            TickEvent::Moved(reports) => {
                &&& self.phase is Moving
                &&& reports@.len() == self.units.len()
                &&& self.next_unit_id + due_summons(
                    self.units,
                    reports@,
                    self.units.len() as int,
                ).len() <= usize::MAX
            },
            TickEvent::Aimed(aims) => {
                &&& self.phase is Aiming
                &&& aims@.len() == self.units.len()
                &&& forall|i: int|
                    0 <= i < aims@.len() ==> (#[trigger] aims@[i]).distance@.len()
                        == self.units.len()
            },
            TickEvent::Settled(reports) => {
                &&& self.phase is Settling
                &&& reports@.len() == self.units.len()
            },
        }
    }

    /// What the game answers to an event: what is to be done next if the
    /// event fits, and that it is rejected if it does not. After the attacks
    /// the answer holds the hits of the tick; at the end of the tick, the
    /// update for the players.
    pub open spec fn answer(self, event: TickEvent) -> ActionView {
        if !self.accepts(event) {
            ActionView::Rejected
        } else {
            match event {
                TickEvent::Begin => ActionView::Move,
                TickEvent::Moved(reports) => ActionView::Aim,
                TickEvent::Aimed(aims) => ActionView::Settle(self.aimed(aims@).damages),
                TickEvent::Settled(reports) => ActionView::Send(
                    ServerView::Update(self.update(reports@)),
                ),
            }
        }
    }

    /// The game after something has happened to it.
    pub open spec fn next(self, h: Happening) -> GameView {
        match h {
            Happening::Inputs(inputs) => self.fed(inputs),
            Happening::Tick(event) => self.after(event),
        }
    }

    /// The game after a run of happenings, one after the other.
    pub open spec fn run(self, hs: Seq<Happening>) -> GameView {
        hs.fold_left(self, |g: GameView, h: Happening| g.next(h))
    }

    /// The update that goes to the players when something happens, if one
    /// does: the one that ends a tick.
    pub open spec fn sends(self, h: Happening) -> Option<UpdateView> {
        match h {
            Happening::Tick(TickEvent::Settled(reports)) => if self.accepts(
                TickEvent::Settled(reports),
            ) {
                Some(self.update(reports@))
            } else {
                None
            },
            _ => None,
        }
    }

    /// The updates that go to the players in the course of a run, in order.
    pub open spec fn updates(self, hs: Seq<Happening>) -> Seq<UpdateView>
        decreases hs.len(),
    {
        if hs.len() == 0 {
            Seq::empty()
        } else {
            let before = self.updates(hs.drop_last());
            match self.run(hs.drop_last()).sends(hs.last()) {
                Some(update) => before.push(update),
                None => before,
            }
        }
    }

    /// The game after an event: the next stage if the event fits, the same
    /// game if it does not.
    pub open spec fn after(self, event: TickEvent) -> GameView {
        if !self.accepts(event) {
            self
        } else {
            match event {
                TickEvent::Begin => self.begun(),
                TickEvent::Moved(reports) => self.moved(reports@),
                TickEvent::Aimed(aims) => self.aimed(aims@),
                TickEvent::Settled(reports) => self.settled(reports@),
            }
        }
    }
}

} // verus!
