//! The world as a mathematical value, and what each command makes of it.
//!
//! The state is the next id to hand out and the players in ascending order of
//! their ids. Every function here is a specification: the executable world
//! is proved to follow them, and the laws at the end are proved from them.

use vstd::prelude::*;
use crate::geometry::{within, Position, Rotation};
use crate::wire::{batch_bytes, EntityRecord};

verus! {

/// One connected player.
pub struct PlayerState {
    pub id: u32,
    pub position: Position,
    pub rotation: Rotation,
    /// Centre and radius of the region the player asked to hear about.
    pub interest: Option<(Position, u16)>,
    /// Every payload the player's outbox has taken, oldest first.
    pub outbox: Seq<Seq<u8>>,
}

/// The whole world.
pub struct WorldState {
    pub next_id: u32,
    pub players: Seq<PlayerState>,
}

/// What a session can ask of the world.
pub enum Command {
    Connect,
    Disconnect { id: u32 },
    SetInterest { id: u32, center: Position, radius: u16 },
    SetPosition { id: u32, position: Position },
    SetRotation { id: u32, rotation: Rotation },
}

/// The world before anyone has connected.
pub open spec fn initial() -> WorldState {
    WorldState { next_id: 1, players: Seq::empty() }
}

/// A player as it is right after connecting.
pub open spec fn fresh_player(id: u32) -> PlayerState {
    PlayerState {
        id,
        position: (0i32, 0i32, 0i32),
        rotation: (0i32, 0i32, 0i32),
        interest: None,
        outbox: Seq::empty(),
    }
}

/// Ids grow strictly along the sequence, so none occurs twice.
pub open spec fn ascending(players: Seq<PlayerState>) -> bool {
    forall|i: int, j: int| 0 <= i < j < players.len() ==> players[i].id < players[j].id
}

/// Ids are non-zero, in ascending order, and below the next id to hand out.
pub open spec fn well_formed(s: WorldState) -> bool {
    &&& 1 <= s.next_id
    &&& ascending(s.players)
    &&& forall|i: int| 0 <= i < s.players.len() ==> 1 <= #[trigger] s.players[i].id < s.next_id
}

/// Whether a player with this id is connected.
pub open spec fn has_player(s: WorldState, id: u32) -> bool {
    exists|i: int| 0 <= i < s.players.len() && #[trigger] s.players[i].id == id
}

/// The player with this id, if one is connected.
pub open spec fn lookup(s: WorldState, id: u32) -> Option<PlayerState> {
    if has_player(s, id) {
        Some(s.players[choose|i: int| 0 <= i < s.players.len() && #[trigger] s.players[i].id == id])
    } else {
        None
    }
}

/// Whether the world can still hand out an id.
pub open spec fn can_connect(s: WorldState) -> bool {
    s.next_id < u32::MAX
}

/// `Connect`: the next id goes to a fresh player. Once the ids are used up
/// nothing changes.
pub open spec fn connect(s: WorldState) -> WorldState {
    if can_connect(s) {
        WorldState {
            next_id: (s.next_id + 1) as u32,
            players: s.players.push(fresh_player(s.next_id)),
        }
    } else {
        s
    }
}

/// Selects every player but the one with this id.
pub open spec fn all_but(id: u32) -> spec_fn(PlayerState) -> bool {
    |p: PlayerState| p.id != id
}

/// `Disconnect`: the player with this id leaves, if there is one.
pub open spec fn disconnect(s: WorldState, id: u32) -> WorldState {
    WorldState { next_id: s.next_id, players: s.players.filter(all_but(id)) }
}

/// Gives the player with this id a new region of interest.
pub open spec fn with_interest(id: u32, center: Position, radius: u16) -> spec_fn(
    PlayerState,
) -> PlayerState {
    |p: PlayerState|
        if p.id == id {
            PlayerState { interest: Some((center, radius)), ..p }
        } else {
            p
        }
}

/// Gives the player with this id a new position.
pub open spec fn with_position(id: u32, position: Position) -> spec_fn(PlayerState) -> PlayerState {
    |p: PlayerState|
        if p.id == id {
            PlayerState { position, ..p }
        } else {
            p
        }
}

/// Gives the player with this id a new rotation.
pub open spec fn with_rotation(id: u32, rotation: Rotation) -> spec_fn(PlayerState) -> PlayerState {
    |p: PlayerState|
        if p.id == id {
            PlayerState { rotation, ..p }
        } else {
            p
        }
}

/// `SetInterest`: the player with this id, if there is one, gets the region.
pub open spec fn set_interest(s: WorldState, id: u32, center: Position, radius: u16) -> WorldState {
    WorldState { next_id: s.next_id, players: s.players.map_values(with_interest(id, center, radius)) }
}

/// `SetPosition`: the player with this id, if there is one, moves.
pub open spec fn set_position(s: WorldState, id: u32, position: Position) -> WorldState {
    WorldState { next_id: s.next_id, players: s.players.map_values(with_position(id, position)) }
}

/// `SetRotation`: the player with this id, if there is one, turns.
pub open spec fn set_rotation(s: WorldState, id: u32, rotation: Rotation) -> WorldState {
    WorldState { next_id: s.next_id, players: s.players.map_values(with_rotation(id, rotation)) }
}

/// The world after one command.
pub open spec fn apply(s: WorldState, c: Command) -> WorldState {
    match c {
        Command::Connect => connect(s),
        Command::Disconnect { id } => disconnect(s, id),
        Command::SetInterest { id, center, radius } => set_interest(s, id, center, radius),
        Command::SetPosition { id, position } => set_position(s, id, position),
        Command::SetRotation { id, rotation } => set_rotation(s, id, rotation),
    }
}

/// The id that a command is answered with: a `Connect` that finds an id
/// left gets the next one, nothing else gets any.
pub open spec fn assigned(s: WorldState, c: Command) -> Option<u32> {
    if c is Connect && can_connect(s) {
        Some(s.next_id)
    } else {
        None
    }
}

/// The world after a run of commands, applied first to last.
pub open spec fn run(s: WorldState, commands: Seq<Command>) -> WorldState
    decreases commands.len(),
{
    if commands.len() == 0 {
        s
    } else {
        apply(run(s, commands.drop_last()), commands.last())
    }
}

/// The ids handed out during a run of commands, in the order of the run.
pub open spec fn issued(s: WorldState, commands: Seq<Command>) -> Seq<u32>
    decreases commands.len(),
{
    if commands.len() == 0 {
        Seq::empty()
    } else {
        let earlier = issued(s, commands.drop_last());
        match assigned(run(s, commands.drop_last()), commands.last()) {
            Some(id) => earlier.push(id),
            None => earlier,
        }
    }
}

/// The record that others are sent about a player.
pub open spec fn record_of(p: PlayerState) -> EntityRecord {
    EntityRecord { id: p.id, position: p.position, rotation: p.rotation }
}

/// `record_of` as a function value.
pub open spec fn to_record() -> spec_fn(PlayerState) -> EntityRecord {
    |p: PlayerState| record_of(p)
}

/// The records of all players, in ascending order of their ids.
pub open spec fn records(players: Seq<PlayerState>) -> Seq<EntityRecord> {
    players.map_values(to_record())
}

/// Selects the entities that a viewer hears about: every player but itself
/// whose position lies within the region.
pub open spec fn seen_by(viewer: u32, center: Position, radius: u16) -> spec_fn(
    EntityRecord,
) -> bool {
    |q: EntityRecord| q.id != viewer && within(center, radius, q.position)
}

/// The batch for a viewer with the given region: of the entities given,
/// those that it hears about, in the order given.
pub open spec fn visible(
    entities: Seq<EntityRecord>,
    viewer: u32,
    center: Position,
    radius: u16,
) -> Seq<EntityRecord> {
    entities.filter(seen_by(viewer, center, radius))
}

/// The payload that a broadcast pass offers a player, if it offers one: the
/// encoded batch for a player that has declared interest.
pub open spec fn offered(players: Seq<PlayerState>, p: PlayerState) -> Option<Seq<u8>> {
    match p.interest {
        Some((center, radius)) => Some(
            batch_bytes(visible(records(players), p.id, center, radius)),
        ),
        None => None,
    }
}

/// How one player may differ after a broadcast pass: in its outbox alone,
/// which has taken the payload offered or, where it was full or closed or
/// nothing was offered, is as it was.
pub open spec fn served(players: Seq<PlayerState>, before: PlayerState, after: PlayerState) -> bool {
    ||| after == before
    ||| offered(players, before) matches Some(payload) && after == (PlayerState {
        outbox: before.outbox.push(payload),
        ..before
    })
}

/// How the world may differ after a broadcast pass: every player is served
/// from the world as it was when the pass began, and nothing else changes.
pub open spec fn broadcast_step(before: WorldState, after: WorldState) -> bool {
    &&& after.next_id == before.next_id
    &&& after.players.len() == before.players.len()
    &&& forall|i: int|
        0 <= i < before.players.len() ==> served(
            before.players,
            #[trigger] before.players[i],
            after.players[i],
        )
}

/// Whether some run of exactly `count` commands leads from one world to
/// the other.
pub open spec fn reachable(before: WorldState, after: WorldState, count: nat) -> bool {
    exists|commands: Seq<Command>| commands.len() == count && after == #[trigger] run(before, commands)
}

/// How the world may differ after a tick: some commands have been applied,
/// and then one broadcast pass has run.
pub open spec fn tick_step(before: WorldState, after: WorldState) -> bool {
    exists|mid: WorldState, count: nat| #[trigger]
        reachable(before, mid, count) && broadcast_step(mid, after)
}

} // verus!
