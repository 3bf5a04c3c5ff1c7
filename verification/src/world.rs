//! The world actor's state and the commands it obeys.
//!
//! The world is the only owner of the players. Sessions reach it through
//! `WorldMsg` values alone. Players are kept in ascending order of their ids,
//! which is the order in which they connected, so lookups are binary
//! searches and every broadcast lists the entities in the same order.

use vstd::prelude::*;
use crate::channel::{
    open_outbox, outbox_log, outbox_offer, poll, reply_with, waiting, Polled,
};
use crate::geometry::{in_range, Position, Rotation};
use crate::model::{
    apply, ascending, broadcast_step, can_connect, connect, disconnect, fresh_player, has_player,
    initial, lookup, offered, reachable, record_of, records, run, seen_by, served, set_interest,
    set_position, set_rotation, tick_step, visible, well_formed, with_interest, with_position,
    with_rotation, Command, PlayerState, WorldState,
};
use crate::laws::{lemma_all_but_absent, lemma_all_but_present};
use crate::wire::{encode_batch, EntityRecord};

verus! {

/// How many payloads a player's outbox holds before further ones are
/// dropped.
pub const OUTBOX_CAPACITY: usize = 128;

/// How many messages the command channel is meant to hold.
pub const COMMAND_CAPACITY: usize = 128;

/// What a session gets back when it connects: its id, and the receiving end
/// of its outbox.
pub struct PlayerHandShake {
    pub id: u32,
    pub rx: tokio::sync::mpsc::Receiver<bytes::Bytes>,
}

/// A message from a session to the world.
pub enum WorldMsg {
    Connect { reply: tokio::sync::oneshot::Sender<PlayerHandShake> },
    Disconnect { id: u32 },
    SetInterest { id: u32, center: Position, radius: u16 },
    SetPosition { id: u32, position: Position },
    SetRotation { id: u32, rotation: Rotation },
}

impl View for WorldMsg {
    type V = Command;

    /// The command that the message carries.
    open spec fn view(&self) -> Command {
        match *self {
            WorldMsg::Connect { .. } => Command::Connect,
            WorldMsg::Disconnect { id } => Command::Disconnect { id },
            WorldMsg::SetInterest { id, center, radius } => Command::SetInterest {
                id,
                center,
                radius,
            },
            WorldMsg::SetPosition { id, position } => Command::SetPosition { id, position },
            WorldMsg::SetRotation { id, rotation } => Command::SetRotation { id, rotation },
        }
    }
}

/// One connected player, with the sending end of its outbox.
pub struct Player {
    id: u32,
    position: Position,
    rotation: Rotation,
    interest: Option<(Position, u16)>,
    tx: tokio::sync::mpsc::Sender<bytes::Bytes>,
}

impl View for Player {
    type V = PlayerState;

    closed spec fn view(&self) -> PlayerState {
        PlayerState {
            id: self.id,
            position: self.position,
            rotation: self.rotation,
            interest: self.interest,
            outbox: outbox_log(self.tx),
        }
    }
}

/// The authoritative state of all players.
pub struct World {
    id_count: u32,
    /// Where the sessions' messages arrive. Waiting on it is left to the
    /// caller; the world itself only ever looks into it without waiting.
    pub rx: tokio::sync::mpsc::Receiver<WorldMsg>,
    players: Vec<Player>,
    running: bool,
}

/// The two states of the actor. `Stopped` is final.
#[derive(Clone, Copy, Debug, PartialEq, Eq)]
pub enum ActorState {
    Running,
    Stopped,
}

/// What can wake the actor.
pub enum ActorEvent {
    /// A message arrived before the tick was due.
    Command(WorldMsg),
    /// The tick is due.
    Tick,
    /// Every session's sender is gone and no message is left.
    Closed,
}

/// What a broadcast pass did for one player.
#[derive(Clone, Copy, Debug, PartialEq, Eq)]
pub enum Outcome {
    /// The player has declared no interest, so nothing was offered.
    Skipped,
    /// The player's outbox took the payload.
    Delivered,
    /// The player's outbox was full or closed, and the payload is lost.
    Dropped,
}

/// One line of a broadcast pass's report: a player and what the pass did
/// for it.
#[derive(Clone, Copy, Debug, PartialEq, Eq)]
pub struct Delivery {
    pub id: u32,
    pub outcome: Outcome,
}

/// What a look through the waiting messages came to.
#[derive(Clone, Copy, Debug, PartialEq, Eq)]
pub struct Drained {
    /// How many messages were applied.
    pub applied: usize,
    /// Whether the channel was found empty with every sender gone.
    pub closed: bool,
}

/// The view of a player, as a function value.
spec fn to_state() -> spec_fn(Player) -> PlayerState {
    |p: Player| p@
}

impl View for World {
    type V = WorldState;

    closed spec fn view(&self) -> WorldState {
        WorldState { next_id: self.id_count, players: self.players@.map_values(to_state()) }
    }
}

/// Among ascending ids, the id at an index stands at no other index.
proof fn lemma_one_per_id(players: Seq<PlayerState>, at: int)
    requires
        ascending(players),
        0 <= at < players.len(),
    ensures
        forall|k: int| 0 <= k < players.len() && k != at ==> players[k].id != players[at].id,
{
    assert forall|k: int| 0 <= k < players.len() && k != at implies players[k].id
        != players[at].id by {
        if k < at {
            assert(players[k].id < players[at].id);
        } else {
            assert(players[at].id < players[k].id);
        }
    }
}

/// A change that touches one id alone changes the one player that has it.
proof fn lemma_change_at(
    players: Seq<PlayerState>,
    at: int,
    id: u32,
    change: spec_fn(PlayerState) -> PlayerState,
)
    requires
        ascending(players),
        0 <= at < players.len(),
        players[at].id == id,
        forall|p: PlayerState| p.id != id ==> #[trigger] change(p) == p,
    ensures
        players.map_values(change) == players.update(at, change(players[at])),
{
    lemma_one_per_id(players, at);
    assert(players.map_values(change) =~= players.update(at, change(players[at])));
}

/// A change that touches one id alone changes nothing where no player has it.
proof fn lemma_change_nowhere(
    players: Seq<PlayerState>,
    id: u32,
    change: spec_fn(PlayerState) -> PlayerState,
)
    requires
        forall|k: int| 0 <= k < players.len() ==> players[k].id != id,
        forall|p: PlayerState| p.id != id ==> #[trigger] change(p) == p,
    ensures
        players.map_values(change) == players,
{
    assert(players.map_values(change) =~= players);
}

impl World {
    /// Ids are non-zero, ascending and below the next one to hand out.
    pub open spec fn wf(&self) -> bool {
        well_formed(self@)
    }

    /// Whether the actor still runs.
    pub closed spec fn state(&self) -> ActorState {
        if self.running {
            ActorState::Running
        } else {
            ActorState::Stopped
        }
    }

    /// A world without players that will take its commands from `rx`.
    pub fn new(rx: tokio::sync::mpsc::Receiver<WorldMsg>) -> (world: World)
        ensures
            world@ == initial(),
            world.wf(),
            world.state() == ActorState::Running,
    {
        let world = World { id_count: 1, rx, players: Vec::new(), running: true };
        assert(world@.players =~= Seq::<PlayerState>::empty());
        world
    }

    /// Where in the sequence the player with this id stands.
    fn find(&self, id: u32) -> (at: Option<usize>)
        requires
            self.wf(),
        ensures
            match at {
                Some(i) => i < self.players.len() && self.players[i as int].id == id,
                None => forall|k: int| 0 <= k < self.players.len() ==> self.players[k].id != id,
            },
    {
        let mut lo: usize = 0;
        let mut hi: usize = self.players.len();
        assert forall|i: int, j: int| 0 <= i < j < self.players.len() implies self.players[i].id
            < self.players[j].id by {
            assert(self@.players[i].id < self@.players[j].id);
        }
        while lo < hi
            invariant
                lo <= hi <= self.players.len(),
                forall|i: int, j: int|
                    0 <= i < j < self.players.len() ==> self.players[i].id < self.players[j].id,
                forall|k: int| 0 <= k < lo ==> self.players[k].id < id,
                forall|k: int| hi <= k < self.players.len() ==> self.players[k].id > id,
            decreases hi - lo,
        {
            let mid: usize = lo + (hi - lo) / 2;
            let here: u32 = self.players[mid].id;
            if here == id {
                return Some(mid);
            } else if here < id {
                lo = mid + 1;
            } else {
                hi = mid;
            }
        }
        None
    }

    /// Whether a player with this id is connected.
    pub fn contains(&self, id: u32) -> (found: bool)
        requires
            self.wf(),
        ensures
            found == has_player(self@, id),
    {
        match self.find(id) {
            Some(i) => {
                assert(self@.players[i as int].id == id);
                true
            },
            None => {
                assert forall|k: int| 0 <= k < self@.players.len() implies self@.players[k].id
                    != id by {
                    assert(self.players[k].id != id);
                }
                false
            },
        }
    }

    /// `Connect`: hands the next id to a new player at the origin, without
    /// interest, and returns the id with the receiving end of the player's
    /// empty outbox. Returns nothing, and changes nothing, once the last id
    /// has been handed out.
    pub fn connect(&mut self) -> (shake: Option<PlayerHandShake>)
        requires
            old(self).wf(),
        ensures
            final(self).wf(),
            final(self)@ == connect(old(self)@),
            final(self).state() == old(self).state(),
            shake is Some <==> can_connect(old(self)@),
            shake matches Some(hs) ==> hs.id == old(self)@.next_id,
    {
        if self.id_count == u32::MAX {
            return None;
        }
        let id: u32 = self.id_count;
        let (tx, rx) = open_outbox(OUTBOX_CAPACITY);
        let player = Player { id, position: (0, 0, 0), rotation: (0, 0, 0), interest: None, tx };
        assert(player@ == fresh_player(id));
        self.players.push(player);
        self.id_count = id + 1;
        assert(self@.players =~= old(self)@.players.push(fresh_player(id)));
        Some(PlayerHandShake { id, rx })
    }

    /// `Disconnect`: removes the player with this id, and with it the
    /// sending end of its outbox. Does nothing if there is no such player.
    pub fn disconnect(&mut self, id: u32)
        requires
            old(self).wf(),
        ensures
            final(self).wf(),
            final(self)@ == disconnect(old(self)@, id),
            final(self).state() == old(self).state(),
    {
        match self.find(id) {
            Some(i) => {
                proof {
                    lemma_all_but_present(self@.players, i as int);
                }
                let _ = self.players.remove(i);
                assert(self@.players =~= old(self)@.players.remove(i as int));
            },
            None => {
                proof {
                    lemma_all_but_absent(self@.players, id);
                }
            },
        }
    }

    /// `SetInterest`: the player with this id will hear about what lies
    /// within `radius` of `center`. Does nothing if there is no such player.
    pub fn set_interest(&mut self, id: u32, center: Position, radius: u16)
        requires
            old(self).wf(),
        ensures
            final(self).wf(),
            final(self)@ == set_interest(old(self)@, id, center, radius),
            final(self).state() == old(self).state(),
    {
        match self.find(id) {
            Some(i) => {
                self.players[i].interest = Some((center, radius));
                proof {
                    let before = old(self)@.players;
                    let change = with_interest(id, center, radius);
                    assert(self@.players =~= before.update(i as int, change(before[i as int])));
                    lemma_change_at(before, i as int, id, change);
                }
            },
            None => {
                proof {
                    let before = old(self)@.players;
                    assert forall|k: int| 0 <= k < before.len() implies before[k].id != id by {
                        assert(self.players[k].id != id);
                    }
                    lemma_change_nowhere(before, id, with_interest(id, center, radius));
                }
            },
        }
    }

    /// `SetPosition`: moves the player with this id. Does nothing if there
    /// is no such player.
    pub fn set_position(&mut self, id: u32, position: Position)
        requires
            old(self).wf(),
        ensures
            final(self).wf(),
            final(self)@ == set_position(old(self)@, id, position),
            final(self).state() == old(self).state(),
    {
        match self.find(id) {
            Some(i) => {
                self.players[i].position = position;
                proof {
                    let before = old(self)@.players;
                    let change = with_position(id, position);
                    assert(self@.players =~= before.update(i as int, change(before[i as int])));
                    lemma_change_at(before, i as int, id, change);
                }
            },
            None => {
                proof {
                    let before = old(self)@.players;
                    assert forall|k: int| 0 <= k < before.len() implies before[k].id != id by {
                        assert(self.players[k].id != id);
                    }
                    lemma_change_nowhere(before, id, with_position(id, position));
                }
            },
        }
    }

    /// `SetRotation`: turns the player with this id. Does nothing if there
    /// is no such player.
    pub fn set_rotation(&mut self, id: u32, rotation: Rotation)
        requires
            old(self).wf(),
        ensures
            final(self).wf(),
            final(self)@ == set_rotation(old(self)@, id, rotation),
            final(self).state() == old(self).state(),
    {
        match self.find(id) {
            Some(i) => {
                self.players[i].rotation = rotation;
                proof {
                    let before = old(self)@.players;
                    let change = with_rotation(id, rotation);
                    assert(self@.players =~= before.update(i as int, change(before[i as int])));
                    lemma_change_at(before, i as int, id, change);
                }
            },
            None => {
                proof {
                    let before = old(self)@.players;
                    assert forall|k: int| 0 <= k < before.len() implies before[k].id != id by {
                        assert(self.players[k].id != id);
                    }
                    lemma_change_nowhere(before, id, with_rotation(id, rotation));
                }
            },
        }
    }

    /// Applies one message. A `Connect` is answered through its reply
    /// channel; if the ids are used up the reply channel is dropped
    /// unanswered, and if the session gave up waiting the new player stays
    /// until its `Disconnect` arrives.
    pub fn handle_msg(&mut self, msg: WorldMsg)
        requires
            old(self).wf(),
        ensures
            final(self).wf(),
            final(self)@ == apply(old(self)@, msg@),
            final(self).state() == old(self).state(),
    {
        match msg {
            WorldMsg::Connect { reply } => {
                match self.connect() {
                    Some(shake) => {
                        let _ = reply_with(reply, shake);
                    },
                    None => {},
                }
            },
            WorldMsg::Disconnect { id } => {
                self.disconnect(id);
            },
            WorldMsg::SetInterest { id, center, radius } => {
                self.set_interest(id, center, radius);
            },
            WorldMsg::SetPosition { id, position } => {
                self.set_position(id, position);
            },
            WorldMsg::SetRotation { id, rotation } => {
                self.set_rotation(id, rotation);
            },
        }
    }

    /// The id that the next `Connect` will hand out.
    pub fn next_id(&self) -> (id: u32)
        ensures
            id == self@.next_id,
    {
        self.id_count
    }

    /// How many players are connected.
    pub fn player_count(&self) -> (count: usize)
        ensures
            count == self@.players.len(),
    {
        self.players.len()
    }

    /// What others are sent about the player with this id, if it is
    /// connected.
    pub fn entity(&self, id: u32) -> (found: Option<EntityRecord>)
        requires
            self.wf(),
        ensures
            found == match lookup(self@, id) {
                Some(p) => Some(record_of(p)),
                None => None,
            },
    {
        match self.find(id) {
            Some(i) => {
                proof {
                    self.lemma_lookup_at(i as int);
                }
                let p = &self.players[i];
                Some(EntityRecord { id: p.id, position: p.position, rotation: p.rotation })
            },
            None => {
                proof {
                    self.lemma_lookup_none(id);
                }
                None
            },
        }
    }

    /// The region that the player with this id has declared, if it is
    /// connected and has declared one.
    pub fn interest_of(&self, id: u32) -> (region: Option<(Position, u16)>)
        requires
            self.wf(),
        ensures
            region == match lookup(self@, id) {
                Some(p) => p.interest,
                None => None,
            },
    {
        match self.find(id) {
            Some(i) => {
                proof {
                    self.lemma_lookup_at(i as int);
                }
                self.players[i].interest
            },
            None => {
                proof {
                    self.lemma_lookup_none(id);
                }
                None
            },
        }
    }

    proof fn lemma_lookup_at(&self, at: int)
        requires
            self.wf(),
            0 <= at < self.players.len(),
        ensures
            lookup(self@, self.players[at].id) == Some(self.players[at]@),
    {
        let id = self.players[at].id;
        assert(self@.players[at].id == id);
        let chosen = choose|i: int| 0 <= i < self@.players.len() && #[trigger] self@.players[i].id == id;
        lemma_one_per_id(self@.players, at);
    }

    proof fn lemma_lookup_none(&self, id: u32)
        requires
            forall|k: int| 0 <= k < self.players.len() ==> self.players[k].id != id,
        ensures
            lookup(self@, id) is None,
    {
        assert forall|k: int| 0 <= k < self@.players.len() implies self@.players[k].id != id by {
            assert(self.players[k].id != id);
        }
    }

    /// The records of all players as they are now, in ascending order of
    /// their ids.
    pub fn snapshot(&self) -> (entities: Vec<EntityRecord>)
        ensures
            entities@ == records(self@.players),
    {
        let mut entities: Vec<EntityRecord> = Vec::new();
        let mut i: usize = 0;
        while i < self.players.len()
            invariant
                i <= self.players.len(),
                entities@ == records(self@.players.take(i as int)),
            decreases self.players.len() - i,
        {
            let p = &self.players[i];
            entities.push(EntityRecord { id: p.id, position: p.position, rotation: p.rotation });
            i += 1;
            assert(entities@ =~= records(self@.players.take(i as int)));
        }
        assert(self@.players.take(self.players.len() as int) =~= self@.players);
        entities
    }

    /// One broadcast pass. Every player that has declared interest is
    /// offered one payload: the records, as they were when the pass began,
    /// of the other players within its region. An outbox that is full or
    /// closed does not take it, and that player goes without for this pass;
    /// the pass never waits for an outbox. Players without interest are
    /// offered nothing. Positions, rotations, regions and ids stay as they
    /// are.
    ///
    /// The report has one line for every player, in ascending order of the
    /// ids, and tells what the pass did for it.
    pub fn broadcast_tick(&mut self) -> (report: Vec<Delivery>)
        requires
            old(self).wf(),
        ensures
            final(self).wf(),
            broadcast_step(old(self)@, final(self)@),
            final(self).state() == old(self).state(),
            report@.len() == old(self)@.players.len(),
            forall|i: int|
                0 <= i < report@.len() ==> settled(
                    old(self)@.players,
                    old(self)@.players[i],
                    final(self)@.players[i],
                    #[trigger] report@[i],
                ),
    {
        let entities = self.snapshot();
        let count: usize = self.players.len();
        let mut report: Vec<Delivery> = Vec::new();
        let mut i: usize = 0;
        while i < count
            invariant
                i <= count,
                count == self.players.len(),
                count == old(self).players.len(),
                self.id_count == old(self).id_count,
                self.running == old(self).running,
                entities@ == records(old(self)@.players),
                report@.len() == i,
                forall|k: int|
                    0 <= k < i ==> settled(
                        old(self)@.players,
                        old(self).players[k]@,
                        self.players[k]@,
                        #[trigger] report@[k],
                    ),
                forall|k: int| i <= k < count ==> #[trigger] self.players[k]@ == old(self).players[k]@,
            decreases count - i,
        {
            let ghost earlier = self.players@;
            let ghost lines = report@;
            let ghost start = old(self).players[i as int]@;
            assert(earlier[i as int]@ == start);
            let id: u32 = self.players[i].id;
            let outcome = match self.players[i].interest {
                Some((center, radius)) => {
                    let batch = visible_among(&entities, id, center, radius);
                    let payload = encode_batch(&batch);
                    let player = &mut self.players[i];
                    let taken = outbox_offer(&mut player.tx, payload);
                    proof {
                        let now = self.players[i as int]@;
                        assert(offered(old(self)@.players, start) == Some(payload@));
                        if taken {
                            assert(now == (PlayerState {
                                outbox: start.outbox.push(payload@),
                                ..start
                            }));
                        } else {
                            assert(now == start);
                        }
                    }
                    if taken {
                        Outcome::Delivered
                    } else {
                        Outcome::Dropped
                    }
                },
                None => Outcome::Skipped,
            };
            let line = Delivery { id, outcome };
            assert(settled(old(self)@.players, start, self.players[i as int]@, line));
            report.push(line);
            assert forall|k: int| 0 <= k < i + 1 implies settled(
                old(self)@.players,
                old(self).players[k]@,
                self.players[k]@,
                #[trigger] report@[k],
            ) by {
                if k < i {
                    assert(self.players[k] == earlier[k]);
                    assert(report@[k] == lines[k]);
                }
            }
            i += 1;
        }
        proof {
            let before = old(self)@;
            let after = self@;
            assert forall|k: int| 0 <= k < report@.len() implies settled(
                before.players,
                before.players[k],
                after.players[k],
                #[trigger] report@[k],
            ) by {
                assert(settled(before.players, old(self).players[k]@, self.players[k]@, report@[k]));
            }
            assert forall|k: int| 0 <= k < before.players.len() implies served(
                before.players,
                #[trigger] before.players[k],
                after.players[k],
            ) by {
                assert(settled(before.players, before.players[k], after.players[k], report@[k]));
            }
            assert forall|k: int| 0 <= k < after.players.len() implies #[trigger] after.players[k].id
                == before.players[k].id by {
                assert(served(before.players, before.players[k], after.players[k]));
            }
            assert(ascending(after.players)) by {
                assert forall|a: int, b: int| 0 <= a < b < after.players.len() implies after.players[a].id
                    < after.players[b].id by {
                    assert(before.players[a].id < before.players[b].id);
                }
            }
        }
        report
    }

    /// Applies the messages that wait in the command channel, oldest
    /// first, without waiting for more and without applying more than
    /// `limit`.
    pub fn drain(&mut self, limit: usize) -> (end: Drained)
        requires
            old(self).wf(),
        ensures
            final(self).wf(),
            final(self).state() == old(self).state(),
            end.applied <= limit,
            reachable(old(self)@, final(self)@, end.applied as nat),
    {
        let mut applied: usize = 0;
        let mut closed: bool = false;
        let mut open: bool = true;
        let ghost mut commands: Seq<Command> = Seq::empty();
        while open && applied < limit
            invariant
                applied <= limit,
                self.wf(),
                self.state() == old(self).state(),
                commands.len() == applied,
                self@ == run(old(self)@, commands),
            decreases (if open { 1int } else { 0int }), limit - applied,
        {
            match poll(&mut self.rx) {
                Polled::Ready(msg) => {
                    proof {
                        assert(commands.push(msg@).drop_last() =~= commands);
                        commands = commands.push(msg@);
                    }
                    self.handle_msg(msg);
                    applied += 1;
                },
                Polled::Empty => {
                    open = false;
                },
                Polled::Closed => {
                    open = false;
                    closed = true;
                },
            }
        }
        Drained { applied, closed }
    }

    /// Lets one event act on the actor and tells the state it is in
    /// afterwards. A tick applies the messages that were waiting when it
    /// began, so it ends however fast new ones arrive.
    pub fn step(&mut self, event: ActorEvent) -> (now: ActorState)
        requires
            old(self).wf(),
        ensures
            final(self).wf(),
            now == final(self).state(),
            stepped(old(self)@, old(self).state(), event, final(self)@, now),
    {
        if !self.running {
            return ActorState::Stopped;
        }
        match event {
            ActorEvent::Command(msg) => {
                self.handle_msg(msg);
                ActorState::Running
            },
            ActorEvent::Tick => {
                let limit = waiting(&self.rx);
                let end = self.drain(limit);
                let ghost mid = self@;
                let _ = self.broadcast_tick();
                assert(reachable(old(self)@, mid, end.applied as nat));
                ActorState::Running
            },
            ActorEvent::Closed => {
                self.running = false;
                ActorState::Stopped
            },
        }
    }

    /// The state the actor is in.
    pub fn current_state(&self) -> (now: ActorState)
        ensures
            now == self.state(),
    {
        if self.running {
            ActorState::Running
        } else {
            ActorState::Stopped
        }
    }
}

/// Whether `delivery` tells what a broadcast pass did for one player, given
/// all players as they were when the pass began.
///
/// A player without interest is skipped and stays as it is. A player with
/// interest is offered its payload: if the outbox took it, the payload is the
/// newest entry of the outbox and nothing else has changed; if not, the
/// player is as it was.
pub open spec fn settled(
    players: Seq<PlayerState>,
    before: PlayerState,
    after: PlayerState,
    delivery: Delivery,
) -> bool {
    &&& delivery.id == before.id
    &&& match offered(players, before) {
        None => delivery.outcome is Skipped && after == before,
        Some(payload) => match delivery.outcome {
            Outcome::Skipped => false,
            Outcome::Delivered => after == (PlayerState {
                outbox: before.outbox.push(payload),
                ..before
            }),
            Outcome::Dropped => after == before,
        },
    }
}

/// What one event makes of the actor. A stopped actor stays as it is. A
/// running one applies a command at once; on a tick it first applies the
/// messages that wait and then runs one broadcast pass; told that the
/// channel is closed, it stops.
pub open spec fn stepped(
    before: WorldState,
    was: ActorState,
    event: ActorEvent,
    after: WorldState,
    now: ActorState,
) -> bool {
    if was is Stopped {
        now is Stopped && after == before
    } else {
        match event {
            ActorEvent::Command(msg) => now is Running && after == apply(before, msg@),
            ActorEvent::Tick => now is Running && tick_step(before, after),
            ActorEvent::Closed => now is Stopped && after == before,
        }
    }
}

/// Picks from `entities` the batch for one viewer: the entities other than
/// the viewer that lie within `radius` of `center`, in the order given.
pub fn visible_among(
    entities: &Vec<EntityRecord>,
    viewer: u32,
    center: Position,
    radius: u16,
) -> (batch: Vec<EntityRecord>)
    ensures
        batch@ == visible(entities@, viewer, center, radius),
{
    let mut batch: Vec<EntityRecord> = Vec::new();
    let mut i: usize = 0;
    proof {
        reveal(Seq::filter);
        assert(entities@.take(0) =~= Seq::<EntityRecord>::empty());
    }
    while i < entities.len()
        invariant
            i <= entities.len(),
            batch@ == visible(entities@.take(i as int), viewer, center, radius),
        decreases entities.len() - i,
    {
        let q = entities[i];
        proof {
            assert(entities@.take(i + 1) =~= entities@.take(i as int).push(q));
            entities@.take(i as int).lemma_filter_push(q, seen_by(viewer, center, radius));
        }
        if q.id != viewer && in_range(center, radius, q.position) {
            batch.push(q);
        }
        i += 1;
    }
    assert(entities@.take(entities.len() as int) =~= entities@);
    batch
}

} // verus!
