//! The game itself.
use crate::game_desc::{DescError, GameDesc};
use crate::lemmas::lemma_due_summons_same;
use crate::math::{Num, Vec2};
use crate::model::{
    change_msg, change_msgs, create_msg, create_msgs, due_summons, forced, index_of, living,
    placed, rested, retire, settled_unit, slot_spawns, spawn_at, spawned, spawns, timed, GameView,
    SpawnOrder,
};
use crate::msg::{
    ClientMsg, DamageMsg, ServerMsg, ServerView, UnitChangeMsg, UnitCmd, UnitCreateMsg, UpdateMsg,
};
use crate::tick::{AimReport, MotionReport, Phase, SettleReport, TickAction, TickEvent};
use crate::unit::{Summon, Unit, UnitState};
use vstd::prelude::*;

verus! {

/// A game in progress.
#[derive(Debug)]
pub struct Game {
    desc: GameDesc,
    units: Vec<Unit>,
    next_unit_id: usize,
    damages: Vec<DamageMsg>,
    phase: Phase,
}

impl View for Game {
    type V = GameView;

    closed spec fn view(&self) -> GameView {
        GameView {
            desc: self.desc,
            units: self.units@,
            next_unit_id: self.next_unit_id as nat,
            damages: self.damages@,
            phase: self.phase,
        }
    }
}

impl Game {
    /// Sets a game up: puts each player's starting units on the field, slot
    /// by slot, each fresh and under the next id, counting from 0. Fails if a
    /// starting unit names a unit type that does not exist, and says which
    /// is the first to do so.
    pub fn new(desc: GameDesc) -> (made: Result<Game, DescError>)
        ensures
            made is Ok <==> desc.spawns_known(),
            made matches Ok(game) ==> game@ == GameView::initial(desc) && game@.wf(),
            made matches Err(e) ==> e matches DescError::UnknownSpawn { player, index }
                && desc.first_unknown_spawn(player as int, index as int),
    {
        let mut game = Game {
            desc,
            units: Vec::new(),
            next_unit_id: 0,
            damages: Vec::new(),
            phase: Phase::Ready,
        };
        let players = game.desc.player_spawns.len();
        let mut client: usize = 0;
        while client < players
            invariant
                players == desc.player_spawns@.len(),
                client <= players,
                game@.desc == desc,
                game@.damages == Seq::<DamageMsg>::empty(),
                game@.phase == Phase::Ready,
                game@.units == spawned(desc, spawns(desc, client as int)),
                game@.next_unit_id == game@.units.len(),
                forall|c: int, j: int|
                    0 <= c < client && 0 <= j < desc.player_spawns@[c].units@.len()
                        ==> desc.has_type(#[trigger] desc.spawn_key(c, j)),
            decreases players - client,
        {
            let count = game.desc.player_spawns[client].units.len();
            let ghost front = spawns(desc, client as int);
            let mut k: usize = 0;
            while k < count
                invariant
                    players == desc.player_spawns@.len(),
                    client < players,
                    count == desc.player_spawns@[client as int].units@.len(),
                    k <= count,
                    front == spawns(desc, client as int),
                    game@.desc == desc,
                    game@.damages == Seq::<DamageMsg>::empty(),
                    game@.phase == Phase::Ready,
                    game@.units == spawned(desc, front + slot_spawns(desc, client as int, k as int)),
                    game@.next_unit_id == game@.units.len(),
                    forall|c: int, j: int|
                        0 <= c < players && 0 <= j < desc.player_spawns@[c].units@.len() && (c
                            < client || (c == client && j < k)) ==> desc.has_type(
                            #[trigger] desc.spawn_key(c, j),
                        ),
                decreases count - k,
            {
                let found = game.desc.find_type(&game.desc.player_spawns[client].units[k].key);
                let pos = game.desc.player_spawns[client].units[k].pos;
                let ty = match found {
                    Some(ty) => ty,
                    None => {
                        assert(!desc.has_type(desc.spawn_key(client as int, k as int)));
                        return Err(DescError::UnknownSpawn { player: client, index: k });
                    },
                };
                assert(desc.has_type(desc.spawn_key(client as int, k as int)));
                let ghost list = front + slot_spawns(desc, client as int, k as int);
                game.spawn_unit(ty, client, pos);
                proof {
                    let longer = front + slot_spawns(desc, client as int, k + 1);
                    assert(longer =~= list.push(spawn_at(desc, client as int, k as int)));
                    assert(game@.units =~= spawned(desc, longer));
                }
                k += 1;
            }
            proof {
                assert(spawns(desc, client + 1) == front + slot_spawns(
                    desc,
                    client as int,
                    count as int,
                ));
            }
            client += 1;
        }
        proof {
            assert(desc.spawns_known());
            GameView::lemma_initial_wf(desc);
        }
        Ok(game)
    }

    /// Takes the game one stage further. A tick is four stages, each opened
    /// by its event: `Begin` retires the dead; `Moved` puts the units where
    /// they moved to, lets those stand that have arrived or are at rest, and
    /// carries out the summons that are due; `Aimed` decides the attacks;
    /// `Settled` marks the dead, reports to the players, and ends the tick.
    /// The answer says what the numerics are to do next. An event that is
    /// not the one the tick waits for, or that does not have an entry for
    /// each unit on the field, or that would use up the ids, is rejected and
    /// changes nothing.
    pub fn tick(&mut self, event: TickEvent) -> (action: TickAction)
        requires
            old(self)@.wf(),
        ensures
            final(self)@ == old(self)@.after(event),
            action@ == old(self)@.answer(event),
            final(self)@.wf(),
    {
        let ghost start = self@;
        match event {
            TickEvent::Begin => {
                if self.phase != Phase::Ready {
                    return TickAction::Rejected;
                }
                self.remove_dead_units();
                proof {
                    start.lemma_begun_wf();
                }
                TickAction::Move
            },
            TickEvent::Moved(reports) => {
                if self.phase != Phase::Moving || reports.len() != self.units.len() {
                    return TickAction::Rejected;
                }
                let due = self.count_due(&reports);
                if due > usize::MAX - self.next_unit_id {
                    return TickAction::Rejected;
                }
                self.place_units(&reports);
                self.unit_forces(&reports);
                self.rest_units(&reports);
                proof {
                    self@.lemma_same_roster_wf(start);
                    lemma_due_summons_same(
                        start.units,
                        self@.units,
                        reports@,
                        start.units.len() as int,
                    );
                }
                self.unit_summons(&reports);
                self.phase = Phase::Aiming;
                proof {
                    assert(self@.units =~= start.moved(reports@).units);
                    start.lemma_moved_wf(reports@);
                }
                TickAction::Aim
            },
            TickEvent::Aimed(aims) => {
                if self.phase != Phase::Aiming || !self.aims_fit(&aims) {
                    return TickAction::Rejected;
                }
                self.unit_attacks(&aims);
                TickAction::Settle(self.hits())
            },
            TickEvent::Settled(reports) => {
                if self.phase != Phase::Settling || reports.len() != self.units.len() {
                    return TickAction::Rejected;
                }
                self.settle_units(&reports);
                let msg = ServerMsg::Update(
                    UpdateMsg {
                        unit_create: Game::unit_create(&self.units, false),
                        unit_change: Game::unit_change(&self.units),
                        damage: self.hits(),
                    },
                );
                self.announce_units();
                self.phase = Phase::Ready;
                proof {
                    start.lemma_settled_wf(reports@);
                }
                TickAction::Send(msg)
            },
        }
    }

    /// The reports have one entry for each unit on the field, and each entry
    /// says of each unit on the field how far it is.
    fn aims_fit(&self, aims: &Vec<AimReport>) -> (fit: bool)
        ensures
            fit <==> {
                &&& aims@.len() == self@.units.len()
                &&& forall|i: int|
                    0 <= i < aims@.len() ==> (#[trigger] aims@[i]).distance@.len()
                        == self@.units.len()
            },
    {
        let n = self.units.len();
        if aims.len() != n {
            return false;
        }
        let mut i: usize = 0;
        while i < n
            invariant
                n == self.units@.len(),
                n == aims@.len(),
                i <= n,
                forall|k: int| 0 <= k < i ==> (#[trigger] aims@[k]).distance@.len() == n,
            decreases n - i,
        {
            if aims[i].distance.len() != n {
                return false;
            }
            i += 1;
        }
        true
    }

    /// The description the game was set up from.
    pub fn desc(&self) -> (desc: &GameDesc)
        ensures
            *desc == self@.desc,
    {
        &self.desc
    }

    /// The units on the field, in the field's order.
    pub fn units(&self) -> (units: &Vec<Unit>)
        ensures
            units@ == self@.units,
    {
        &self.units
    }

    /// The id the next unit will get.
    pub fn next_unit_id(&self) -> (id: usize)
        ensures
            id == self@.next_unit_id,
    {
        self.next_unit_id
    }

    /// How far the current tick has come.
    pub fn phase(&self) -> (phase: Phase)
        ensures
            phase == self@.phase,
    {
        self.phase
    }

    /// Applies what the players sent, message by message and order by order.
    /// An order is obeyed only if it is for a unit on the field that the
    /// sender owns; a summon, only if the unit's type can summon the type
    /// asked for and the unit is not summoning already. Every other order is
    /// passed over.
    pub fn process_inputs(&mut self, inputs: &[(usize, ClientMsg)])
        requires
            old(self)@.wf(),
        ensures
            final(self)@ == old(self)@.fed(inputs@),
            final(self)@.wf(),
            final(self)@.same_roster(old(self)@),
    {
        let ghost start = self@;
        let mut i: usize = 0;
        while i < inputs.len()
            invariant
                i <= inputs@.len(),
                self@ == start.fed(inputs@.take(i as int)),
                self@.wf(),
            decreases inputs@.len() - i,
        {
            let client = inputs[i].0;
            match &inputs[i].1 {
                ClientMsg::Commands(cmds) => {
                    let ghost mid = self@;
                    let mut j: usize = 0;
                    while j < cmds.len()
                        invariant
                            j <= cmds@.len(),
                            self@ == mid.commanded_all(client, cmds@.take(j as int)),
                            self@.wf(),
                        decreases cmds@.len() - j,
                    {
                        let (id, cmd) = cmds[j];
                        self.command(client, id, cmd);
                        proof {
                            assert(cmds@.take(j + 1).drop_last() =~= cmds@.take(j as int));
                        }
                        j += 1;
                    }
                    proof {
                        assert(cmds@.take(j as int) =~= cmds@);
                        assert(inputs@.take(i + 1).drop_last() =~= inputs@.take(i as int));
                    }
                },
            }
            i += 1;
        }
        proof {
            assert(inputs@.take(i as int) =~= inputs@);
            start.lemma_fed_wf(inputs@);
        }
    }

    /// Applies one order of player `client` for the unit with id `id`.
    fn command(&mut self, client: usize, id: usize, cmd: UnitCmd)
        requires
            old(self)@.wf(),
        ensures
            final(self)@ == old(self)@.commanded(client, id, cmd),
            final(self)@.wf(),
    {
        proof {
            self@.lemma_commanded_wf(client, id, cmd);
        }
        let ghost start = self@;
        let k = match self.find_unit(id) {
            Some(k) => k,
            None => {
                return ;
            },
        };
        let unit = self.units[k];
        assert(start.unit_ok(start.units[k as int]));
        if unit.client != client {
            return ;
        }
        match cmd {
            UnitCmd::Target(pos) => {
                self.units[k].state = UnitState::Move(pos);
            },
            UnitCmd::Summon(ty) => {
                if ty < self.desc.units.len() && unit.summon.is_none() {
                    let found = self.desc.units[unit.ty].find_summon(&self.desc.units[ty].key);
                    if let Some(entry) = found {
                        let delay = entry.time;
                        self.units[k].summon = Some(Summon { unit_ty: ty, delay });
                    }
                }
            },
        }
        assert(self@.units =~= start.commanded(client, id, cmd).units);
    }

    /// Finds the unit with the given id on the field. Ids rise along the
    /// field, so the search halves the field at each step.
    pub fn find_unit(&self, id: usize) -> (found: Option<usize>)
        requires
            self@.wf(),
        ensures
            match found {
                Some(k) => index_of(self@.units, id) == Some(k as int),
                None => index_of(self@.units, id) is None,
            },
            found matches Some(k) ==> k < self@.units.len() && self@.units[k as int].id == id,
    {
        let mut lo: usize = 0;
        let mut hi: usize = self.units.len();
        while lo < hi
            invariant
                self@.wf(),
                lo <= hi <= self.units@.len(),
                forall|k: int| 0 <= k < lo ==> (#[trigger] self.units@[k]).id < id,
                forall|k: int| hi <= k < self.units@.len() ==> (#[trigger] self.units@[k]).id > id,
            decreases hi - lo,
        {
            let mid = lo + (hi - lo) / 2;
            let here = self.units[mid].id;
            if here == id {
                proof {
                    let c = choose|k: int|
                        0 <= k < self.units@.len() && (#[trigger] self.units@[k]).id == id;
                    if c < mid {
                        assert(self.units@[c].id < self.units@[mid as int].id);
                    }
                    if mid < c {
                        assert(self.units@[mid as int].id < self.units@[c].id);
                    }
                }
                return Some(mid);
            } else if here < id {
                assert forall|k: int| 0 <= k < mid + 1 implies (#[trigger] self.units@[k]).id
                    < id by {
                    if k < mid {
                        assert(self.units@[k].id < self.units@[mid as int].id);
                    }
                }
                lo = mid + 1;
            } else {
                assert forall|k: int| mid <= k < self.units@.len() implies (
                #[trigger] self.units@[k]).id > id by {
                    if mid < k {
                        assert(self.units@[mid as int].id < self.units@[k].id);
                    }
                }
                hi = mid;
            }
        }
        None
    }

    /// The snapshot for a player who joins between two ticks: every living
    /// unit announced and reported, in the field's order, and no hits. A unit
    /// that died in the last tick is still on the field, to be taken off when
    /// the next tick opens; the snapshot leaves it out.
    pub fn catchup_msg(&self) -> (msg: ServerMsg)
        requires
            self@.phase is Ready,
        ensures
            msg@ == ServerView::Update(self@.catchup()),
    {
        let living = self.living_units();
        ServerMsg::Update(
            UpdateMsg {
                unit_create: Game::unit_create(&living, true),
                unit_change: Game::unit_change(&living),
                damage: Vec::new(),
            },
        )
    }

    /// The units on the field that are not dead, in the field's order.
    fn living_units(&self) -> (units: Vec<Unit>)
        ensures
            units@ == living(self@.units),
    {
        let mut units: Vec<Unit> = Vec::new();
        let mut i: usize = 0;
        while i < self.units.len()
            invariant
                i <= self.units@.len(),
                units@ == living(self.units@.take(i as int)),
            decreases self.units@.len() - i,
        {
            let u = self.units[i];
            proof {
                reveal(Seq::filter);
                assert(self.units@.take(i + 1).drop_last() =~= self.units@.take(i as int));
            }
            if !u.dead {
                units.push(u);
            }
            i += 1;
        }
        proof {
            assert(self.units@.take(i as int) =~= self.units@);
        }
        units
    }

    /// The announcements of the given units: of all of them, or of the new
    /// ones only.
    fn unit_create(units: &Vec<Unit>, all_units: bool) -> (msgs: Vec<UnitCreateMsg>)
        ensures
            msgs@ == create_msgs(units@, all_units),
    {
        let mut msgs: Vec<UnitCreateMsg> = Vec::new();
        let mut i: usize = 0;
        while i < units.len()
            invariant
                i <= units@.len(),
                msgs@ == create_msgs(units@.take(i as int), all_units),
            decreases units@.len() - i,
        {
            let u = units[i];
            proof {
                reveal(Seq::filter);
                let front = units@.take(i as int);
                let next = units@.take(i + 1);
                assert(next.drop_last() =~= front);
                let keep = |u: Unit| all_units || u.new;
                if all_units || u.new {
                    assert(next.filter(keep) =~= front.filter(keep).push(u));
                    assert(create_msgs(next, all_units) =~= create_msgs(front, all_units).push(
                        create_msg(u),
                    ));
                } else {
                    assert(next.filter(keep) =~= front.filter(keep));
                }
            }
            if all_units || u.new {
                msgs.push(UnitCreateMsg { id: u.id, ty: u.ty, client: u.client });
            }
            i += 1;
        }
        proof {
            assert(units@.take(i as int) =~= units@);
        }
        msgs
    }

    /// The reports on the given units, one for each, in order.
    fn unit_change(units: &Vec<Unit>) -> (msgs: Vec<UnitChangeMsg>)
        ensures
            msgs@ == change_msgs(units@),
    {
        let mut msgs: Vec<UnitChangeMsg> = Vec::new();
        let mut i: usize = 0;
        while i < units.len()
            invariant
                i <= units@.len(),
                msgs@.len() == i,
                forall|k: int| 0 <= k < i ==> msgs@[k] == change_msg(units@[k]),
            decreases units@.len() - i,
        {
            let u = units[i];
            msgs.push(UnitChangeMsg { pos: u.pos, disp: u.disp, hp: u.hp, dead: u.dead });
            i += 1;
        }
        assert(msgs@ =~= change_msgs(units@));
        msgs
    }

    /// Opens a tick: takes the dead off the field, and with them the hits of
    /// the tick before. No unit that stays is new any more.
    fn remove_dead_units(&mut self)
        ensures
            final(self)@ == old(self)@.begun(),
            final(self)@.units == living(old(self)@.units).map_values(|u: Unit| u.announced()),
            final(self)@.next_unit_id == old(self)@.next_unit_id,
            forall|k: int|
                0 <= k < final(self)@.units.len() ==> !(#[trigger] final(self)@.units[k]).dead
                    && !final(self)@.units[k].new,
            old(self)@.wf() ==> final(self)@.wf(),
    {
        let ghost start = self@;
        let mut kept: Vec<Unit> = Vec::new();
        let mut i: usize = 0;
        while i < self.units.len()
            invariant
                self@ == start,
                i <= self.units@.len(),
                kept@ == retire(self.units@.take(i as int)),
                forall|k: int| 0 <= k < kept@.len() ==> !(#[trigger] kept@[k]).dead && !kept@[k].new,
            decreases self.units@.len() - i,
        {
            let u = self.units[i];
            proof {
                reveal(Seq::filter);
                let front = self.units@.take(i as int);
                let next = self.units@.take(i + 1);
                assert(next.drop_last() =~= front);
                let alive = |u: Unit| !u.dead;
                if !u.dead {
                    assert(next.filter(alive) =~= front.filter(alive).push(u));
                    assert(retire(next) =~= retire(front).push(u.announced()));
                } else {
                    assert(next.filter(alive) =~= front.filter(alive));
                }
            }
            if !u.dead {
                let mut stay = u;
                stay.new = false;
                kept.push(stay);
            }
            i += 1;
        }
        proof {
            assert(self.units@.take(i as int) =~= self.units@);
            if start.wf() {
                start.lemma_begun_wf();
            }
        }
        self.units = kept;
        self.damages = Vec::new();
        self.phase = Phase::Moving;
    }

    /// Takes over what the numerics settled for each unit: its hit points,
    /// velocity and displacement. A unit without hit points is dead.
    fn settle_units(&mut self, reports: &Vec<SettleReport>)
        requires
            reports@.len() == old(self)@.units.len(),
        ensures
            final(self)@ == old(self)@.with_units(old(self)@.reported(reports@)),
    {
        let ghost start = self@;
        let n = self.units.len();
        let mut i: usize = 0;
        while i < n
            invariant
                n == start.units.len(),
                n == reports@.len(),
                i <= n,
                self@.with_units(start.units) == start,
                self.units@.len() == n,
                forall|k: int|
                    0 <= k < i ==> self.units@[k] == settled_unit(start.units[k], reports@[k]),
                forall|k: int| i <= k < n ==> self.units@[k] == start.units[k],
            decreases n - i,
        {
            let r = reports[i];
            self.units[i].hp = r.hp;
            if r.hp.le(Num::zero()) {
                self.units[i].dead = true;
            }
            self.units[i].vel = r.vel;
            self.units[i].disp = r.disp;
            i += 1;
        }
        assert(self@.units =~= start.reported(reports@));
    }

    /// Notes that the players have been told of every unit on the field.
    fn announce_units(&mut self)
        ensures
            final(self)@ == old(self)@.with_units(
                old(self)@.units.map_values(|u: Unit| u.announced()),
            ),
    {
        let ghost start = self@;
        let n = self.units.len();
        let mut i: usize = 0;
        while i < n
            invariant
                n == start.units.len(),
                i <= n,
                self@.with_units(start.units) == start,
                self.units@.len() == n,
                forall|k: int| 0 <= k < i ==> self.units@[k] == start.units[k].announced(),
                forall|k: int| i <= k < n ==> self.units@[k] == start.units[k],
            decreases n - i,
        {
            self.units[i].new = false;
            i += 1;
        }
        assert(self@.units =~= start.units.map_values(|u: Unit| u.announced()));
    }

    /// The hits of the tick, in the order they fell.
    fn hits(&self) -> (hits: Vec<DamageMsg>)
        ensures
            hits@ == self@.damages,
    {
        let mut hits: Vec<DamageMsg> = Vec::new();
        let mut i: usize = 0;
        while i < self.damages.len()
            invariant
                i <= self.damages@.len(),
                hits@ == self.damages@.take(i as int),
            decreases self.damages@.len() - i,
        {
            hits.push(self.damages[i]);
            assert(self.damages@.take(i + 1) =~= self.damages@.take(i as int).push(
                self.damages@[i as int],
            ));
            i += 1;
        }
        assert(self.damages@.take(i as int) =~= self.damages@);
        hits
    }

    /// Puts a unit on the field: fresh, with the full hit points of its
    /// type, under the next id, which it returns.
    fn spawn_unit(&mut self, ty: usize, player: usize, pos: Vec2) -> (id: usize)
        requires
            ty < old(self)@.desc.units@.len(),
            old(self)@.next_unit_id < usize::MAX || old(self)@.next_unit_id == old(
                self,
            )@.units.len(),
        ensures
            final(self)@ == old(self)@.spawn(ty, player, pos),
            id == old(self)@.next_unit_id,
            final(self)@.next_unit_id == old(self)@.next_unit_id + 1,
            final(self)@.units == old(self)@.units.push(
                Unit::fresh(id, ty, player, pos, old(self)@.desc.units@[ty as int].hp),
            ),
            old(self)@.wf() ==> forall|k: int|
                0 <= k < old(self)@.units.len() ==> (#[trigger] old(self)@.units[k]).id < id,
            old(self)@.wf() && player < old(self)@.desc.player_spawns@.len() ==> final(self)@.wf(),
    {
        let ghost start = self@;
        let id = self.next_unit_id;
        let unit = Unit {
            id,
            client: player,
            ty,
            pos,
            vel: Vec2::zero(),
            acc: Vec2::zero(),
            disp: Vec2::zero(),
            state: UnitState::Idle,
            summon: None,
            hp: self.desc.units[ty].hp,
            reload: Num::zero(),
            new: true,
            dead: false,
        };
        self.units.push(unit);
        let len = self.units.len();
        assert(id < usize::MAX);
        self.next_unit_id = id + 1;
        proof {
            if start.wf() {
                assert forall|k: int| 0 <= k < start.units.len() implies (
                #[trigger] start.units[k]).id < id by {
                    assert(start.unit_ok(start.units[k]));
                }
                if player < start.desc.player_spawns@.len() {
                    start.law_spawn_gives_a_fresh_id(ty, player, pos);
                }
            }
        }
        id
    }

    /// Puts each unit where the numerics moved it.
    fn place_units(&mut self, reports: &Vec<MotionReport>)
        requires
            reports@.len() == old(self)@.units.len(),
        ensures
            final(self)@ == old(self)@.placed_all(reports@),
    {
        let ghost start = self@;
        let n = self.units.len();
        let mut i: usize = 0;
        while i < n
            invariant
                n == start.units.len(),
                n == reports@.len(),
                i <= n,
                self@.with_units(start.units) == start,
                self.units@.len() == n,
                forall|k: int| 0 <= k < i ==> self.units@[k] == placed(start.units[k], reports@[k]),
                forall|k: int| i <= k < n ==> self.units@[k] == start.units[k],
            decreases n - i,
        {
            self.units[i].pos = reports[i].pos;
            i += 1;
        }
        assert(self@.units =~= start.placed_all(reports@).units);
    }

    /// Puts each unit under the forces the numerics found, and lets a moving
    /// unit that has arrived stand.
    fn unit_forces(&mut self, reports: &Vec<MotionReport>)
        requires
            reports@.len() == old(self)@.units.len(),
        ensures
            final(self)@ == old(self)@.forced_all(reports@),
    {
        let ghost start = self@;
        let n = self.units.len();
        let mut i: usize = 0;
        while i < n
            invariant
                n == start.units.len(),
                n == reports@.len(),
                i <= n,
                self@.with_units(start.units) == start,
                self.units@.len() == n,
                forall|k: int| 0 <= k < i ==> self.units@[k] == forced(start.units[k], reports@[k]),
                forall|k: int| i <= k < n ==> self.units@[k] == start.units[k],
            decreases n - i,
        {
            self.units[i].acc = reports[i].acc;
            if let UnitState::Move(_) = self.units[i].state {
                if reports[i].has_arrived() {
                    self.units[i].state = UnitState::Idle;
                }
            }
            i += 1;
        }
        assert(self@.units =~= start.forced_all(reports@).units);
    }

    /// Lets each moving unit stand that is slow and under little
    /// acceleration.
    fn rest_units(&mut self, reports: &Vec<MotionReport>)
        requires
            reports@.len() == old(self)@.units.len(),
        ensures
            final(self)@ == old(self)@.rested_all(reports@),
    {
        let ghost start = self@;
        let n = self.units.len();
        let mut i: usize = 0;
        while i < n
            invariant
                n == start.units.len(),
                n == reports@.len(),
                i <= n,
                self@.with_units(start.units) == start,
                self.units@.len() == n,
                forall|k: int| 0 <= k < i ==> self.units@[k] == rested(start.units[k], reports@[k]),
                forall|k: int| i <= k < n ==> self.units@[k] == start.units[k],
            decreases n - i,
        {
            if let UnitState::Move(_) = self.units[i].state {
                if reports[i].is_at_rest() {
                    self.units[i].state = UnitState::Idle;
                }
            }
            i += 1;
        }
        assert(self@.units =~= start.rested_all(reports@).units);
    }

    /// Counts the summons that are due.
    fn count_due(&self, reports: &Vec<MotionReport>) -> (count: usize)
        requires
            reports@.len() == self@.units.len(),
        ensures
            count == due_summons(self@.units, reports@, self@.units.len() as int).len(),
    {
        let n = self.units.len();
        let mut count: usize = 0;
        let mut i: usize = 0;
        while i < n
            invariant
                n == self.units@.len(),
                n == reports@.len(),
                i <= n,
                count <= i,
                count == due_summons(self.units@, reports@, i as int).len(),
            decreases n - i,
        {
            if self.units[i].summon.is_some() && reports[i].is_summon_due() {
                count += 1;
            }
            i += 1;
        }
        count
    }

    /// Takes the tick off each summon. A summon that is due is over, and the
    /// unit it was for appears: the units of all due summons are put on the
    /// field together, after every summon has been looked at, in the order
    /// of the units that summoned them.
    fn unit_summons(&mut self, reports: &Vec<MotionReport>)
        requires
            old(self)@.wf(),
            reports@.len() == old(self)@.units.len(),
            old(self)@.next_unit_id + due_summons(
                old(self)@.units,
                reports@,
                old(self)@.units.len() as int,
            ).len() <= usize::MAX,
        ensures
            final(self)@ == old(self)@.resolved(reports@),
    {
        let ghost start = self@;
        let n = self.units.len();
        let mut units_to_spawn: Vec<SpawnOrder> = Vec::new();
        let mut i: usize = 0;
        while i < n
            invariant
                n == start.units.len(),
                n == reports@.len(),
                i <= n,
                self@.with_units(start.units) == start,
                self.units@.len() == n,
                forall|k: int| 0 <= k < i ==> self.units@[k] == timed(start.units[k], reports@[k]),
                forall|k: int| i <= k < n ==> self.units@[k] == start.units[k],
                units_to_spawn@ == due_summons(start.units, reports@, i as int),
            decreases n - i,
        {
            let unit = self.units[i];
            if let Some(summon) = unit.summon {
                if reports[i].is_summon_due() {
                    units_to_spawn.push(
                        SpawnOrder {
                            ty: summon.unit_ty,
                            client: unit.client,
                            pos: reports[i].spawn_pos,
                        },
                    );
                    self.units[i].summon = None;
                } else {
                    self.units[i].summon = Some(
                        Summon { unit_ty: summon.unit_ty, delay: reports[i].summon_delay },
                    );
                }
            }
            i += 1;
        }
        let ghost timed_units = self.units@;
        let ghost children = start.summoned(units_to_spawn@);
        proof {
            start.lemma_due_summons(reports@, n as int);
        }
        let mut k: usize = 0;
        while k < units_to_spawn.len()
            invariant
                k <= units_to_spawn@.len(),
                units_to_spawn@ == due_summons(start.units, reports@, n as int),
                children == start.summoned(units_to_spawn@),
                start.next_unit_id + units_to_spawn@.len() <= usize::MAX,
                forall|j: int|
                    0 <= j < units_to_spawn@.len() ==> (#[trigger] units_to_spawn@[j]).ty
                        < start.desc.units@.len(),
                self@.desc == start.desc,
                self@.damages == start.damages,
                self@.phase == start.phase,
                self@.next_unit_id == start.next_unit_id + k,
                self@.units == timed_units + children.take(k as int),
            decreases units_to_spawn@.len() - k,
        {
            let order = units_to_spawn[k];
            self.spawn_unit(order.ty, order.client, order.pos);
            assert(self@.units =~= timed_units + children.take(k + 1));
            k += 1;
        }
        assert(self@.units =~= start.resolved(reports@).units);
    }

    /// Decides the attacks of the tick. Attackers take their turns in the
    /// field's order, and each goes through the other units in the field's
    /// order: it fires at each enemy within its weapon's range while the
    /// weapon is ready, and each shot starts the weapon's delay. A hit is
    /// noted with the places of attacker and target on the field.
    fn unit_attacks(&mut self, aims: &Vec<AimReport>)
        requires
            old(self)@.wf(),
            old(self)@.accepts(TickEvent::Aimed(*aims)),
        ensures
            final(self)@ == old(self)@.aimed(aims@),
            final(self)@.wf(),
    {
        let ghost start = self@;
        let n = self.units.len();
        let mut damages: Vec<DamageMsg> = Vec::new();
        let mut i: usize = 0;
        while i < n
            invariant
                start.wf(),
                start == old(self)@,
                n == start.units.len(),
                aims@.len() == n,
                forall|k: int| 0 <= k < n ==> (#[trigger] aims@[k]).distance@.len() == n,
                i <= n,
                self.units@.len() == n,
                self.desc == start.desc,
                self.next_unit_id == start.next_unit_id,
                self.phase == start.phase,
                forall|k: int| 0 <= k < i ==> self.units@[k] == start.reloaded(aims@, k),
                forall|k: int| i <= k < n ==> self.units@[k] == start.units[k],
                damages@ == start.hits(aims@, i as int),
            decreases n - i,
        {
            let attacker = self.units[i];
            let aim = &aims[i];
            assert(start.unit_ok(start.units[i as int]));
            let weapon = self.desc.units[attacker.ty].attack;
            let mut reload = aim.reload;
            let ghost before = damages@;
            let mut j: usize = 0;
            while j < n
                invariant
                    start.wf(),
                    n == start.units.len(),
                    aims@.len() == n,
                    forall|k: int| 0 <= k < n ==> (#[trigger] aims@[k]).distance@.len() == n,
                    i < n,
                    j <= n,
                    *aim == aims@[i as int],
                    attacker == start.units[i as int],
                    weapon == start.desc.units@[attacker.ty as int].attack,
                    self.units@.len() == n,
                    self.desc == start.desc,
                    self.next_unit_id == start.next_unit_id,
                    self.phase == start.phase,
                    forall|k: int| 0 <= k < i ==> self.units@[k] == start.reloaded(aims@, k),
                    forall|k: int| i <= k < n ==> self.units@[k] == start.units[k],
                    reload == start.reloaded_upto(aims@, i as int, j as int),
                    reload.le_zero() == (start.ready(aims@, i as int) && (start.ready_after_shot(
                        i as int,
                    ) || start.targets(aims@, i as int, j as int).len() == 0)),
                    damages@ == before + start.shots(aims@, i as int, j as int).map_values(
                        |t: int| DamageMsg { from: i, to: t as usize },
                    ),
                decreases n - j,
            {
                let ghost shots = start.shots(aims@, i as int, j as int);
                let in_reach = match weapon {
                    Some(attack) => j != i && self.units[j].client != attacker.client
                        && aim.distance[j].lt(attack.range),
                    None => false,
                };
                assert(in_reach == start.can_hit(aims@, i as int, j as int)) by {
                    if j < i {
                        assert(self.units@[j as int] == start.reloaded(aims@, j as int));
                    }
                }
                if in_reach && reload.le(Num::zero()) {
                    damages.push(DamageMsg { from: i, to: j });
                    if let Some(attack) = weapon {
                        reload = attack.delay;
                    }
                    assert(start.shots(aims@, i as int, j + 1) == shots.push(j as int));
                    assert(shots.push(j as int).map_values(
                        |t: int| DamageMsg { from: i, to: t as usize },
                    ) == shots.map_values(|t: int| DamageMsg { from: i, to: t as usize }).push(
                        DamageMsg { from: i, to: j },
                    ));
                } else {
                    assert(start.shots(aims@, i as int, j + 1) == shots);
                }
                j += 1;
            }
            self.units[i].reload = reload;
            assert(self.units@[i as int] == start.reloaded(aims@, i as int));
            i += 1;
        }
        self.damages = damages;
        self.phase = Phase::Settling;
        proof {
            start.lemma_aimed_wf(aims@);
            assert(self@.units == start.aimed(aims@).units);
        }
    }
}

} // verus!
