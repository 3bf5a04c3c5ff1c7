//! What holds of the world whatever commands arrive, proved from the model.

use vstd::prelude::*;
use crate::geometry::{within, Position};
use crate::model::{
    all_but, apply, ascending, broadcast_step, disconnect, has_player, issued, offered,
    record_of, records, run, seen_by, served, set_interest, set_position, set_rotation, visible,
    well_formed, Command, PlayerState, WorldState,
};
use crate::wire::EntityRecord;

verus! {

/// Removing an id that no player has removes nothing.
pub proof fn lemma_all_but_absent(players: Seq<PlayerState>, id: u32)
    requires
        forall|i: int| 0 <= i < players.len() ==> players[i].id != id,
    ensures
        players.filter(all_but(id)) == players,
    decreases players.len(),
{
    reveal(Seq::filter);
    if players.len() > 0 {
        let front = players.drop_last();
        lemma_all_but_absent(front, id);
        assert(all_but(id)(players.last()));
        assert(front.push(players.last()) =~= players);
    }
}

/// Among ascending ids, removing the id at an index removes that player alone.
pub proof fn lemma_all_but_present(players: Seq<PlayerState>, at: int)
    requires
        ascending(players),
        0 <= at < players.len(),
    ensures
        players.filter(all_but(players[at].id)) == players.remove(at),
    decreases players.len(),
{
    reveal(Seq::filter);
    let id = players[at].id;
    let front = players.drop_last();
    let last = players.last();
    if at == players.len() - 1 {
        lemma_all_but_absent(front, id);
        assert(!all_but(id)(last));
        assert(players.remove(at) =~= front);
    } else {
        lemma_all_but_present(front, at);
        assert(all_but(id)(last));
        assert(front.remove(at).push(last) =~= players.remove(at));
    }
}

/// What `Disconnect` leaves holds no player with the id.
pub proof fn lemma_disconnect_removes(s: WorldState, id: u32)
    ensures
        !has_player(disconnect(s, id), id),
{
    let rest = s.players.filter(all_but(id));
    assert forall|i: int| 0 <= i < rest.len() implies rest[i].id != id by {
        s.players.lemma_filter_pred(all_but(id), i);
    }
}

/// `Disconnect` for an id that no player has changes nothing.
pub proof fn lemma_disconnect_unknown(s: WorldState, id: u32)
    requires
        !has_player(s, id),
    ensures
        disconnect(s, id) == s,
{
    lemma_all_but_absent(s.players, id);
}

/// A second `Disconnect` for the same id changes nothing.
pub proof fn lemma_disconnect_idempotent(s: WorldState, id: u32)
    ensures
        disconnect(disconnect(s, id), id) == disconnect(s, id),
{
    lemma_disconnect_removes(s, id);
    lemma_disconnect_unknown(disconnect(s, id), id);
}

/// The id that a command is addressed to, if it is addressed to a player.
pub open spec fn target(c: Command) -> Option<u32> {
    match c {
        Command::Connect => None,
        Command::Disconnect { id } => Some(id),
        Command::SetInterest { id, .. } => Some(id),
        Command::SetPosition { id, .. } => Some(id),
        Command::SetRotation { id, .. } => Some(id),
    }
}

/// A command addressed to an id that no player has changes nothing.
pub proof fn lemma_unknown_id_ignored(s: WorldState, c: Command)
    requires
        target(c) matches Some(id) && !has_player(s, id),
    ensures
        apply(s, c) == s,
{
    match c {
        Command::Connect => {},
        Command::Disconnect { id } => {
            lemma_disconnect_unknown(s, id);
        },
        Command::SetInterest { id, center, radius } => {
            assert(set_interest(s, id, center, radius).players =~= s.players);
        },
        Command::SetPosition { id, position } => {
            assert(set_position(s, id, position).players =~= s.players);
        },
        Command::SetRotation { id, rotation } => {
            assert(set_rotation(s, id, rotation).players =~= s.players);
        },
    }
}

/// Every command keeps the world well formed, and never lowers the next id.
pub proof fn lemma_apply_well_formed(s: WorldState, c: Command)
    requires
        well_formed(s),
    ensures
        well_formed(apply(s, c)),
        s.next_id <= apply(s, c).next_id,
{
    match c {
        Command::Connect => {},
        Command::Disconnect { id } => {
            if has_player(s, id) {
                let at = choose|i: int| 0 <= i < s.players.len() && #[trigger] s.players[i].id == id;
                lemma_all_but_present(s.players, at);
            } else {
                lemma_disconnect_unknown(s, id);
            }
        },
        Command::SetInterest { id, center, radius } => {},
        Command::SetPosition { id, position } => {},
        Command::SetRotation { id, rotation } => {},
    }
}

/// A run of commands keeps the world well formed, and never lowers the next
/// id.
pub proof fn lemma_run_well_formed(s: WorldState, commands: Seq<Command>)
    requires
        well_formed(s),
    ensures
        well_formed(run(s, commands)),
        s.next_id <= run(s, commands).next_id,
    decreases commands.len(),
{
    if commands.len() > 0 {
        lemma_run_well_formed(s, commands.drop_last());
        lemma_apply_well_formed(run(s, commands.drop_last()), commands.last());
    }
}

/// The ids handed out during any run of commands are strictly increasing,
/// so pairwise distinct; none is below the next id that the run began with,
/// and all are below the one it ends with.
pub proof fn lemma_issued_ids_increase(s: WorldState, commands: Seq<Command>)
    requires
        well_formed(s),
    ensures
        forall|i: int, j: int|
            0 <= i < j < issued(s, commands).len() ==> issued(s, commands)[i] < issued(
                s,
                commands,
            )[j],
        forall|i: int, j: int|
            0 <= i < issued(s, commands).len() && 0 <= j < issued(s, commands).len() && i != j
                ==> issued(s, commands)[i] != issued(s, commands)[j],
        forall|i: int|
            0 <= i < issued(s, commands).len() ==> s.next_id <= #[trigger] issued(s, commands)[i]
                < run(s, commands).next_id,
        forall|i: int| 0 <= i < issued(s, commands).len() ==> #[trigger] issued(s, commands)[i] != 0,
    decreases commands.len(),
{
    if commands.len() > 0 {
        let earlier = commands.drop_last();
        lemma_issued_ids_increase(s, earlier);
        lemma_run_well_formed(s, earlier);
        lemma_apply_well_formed(run(s, earlier), commands.last());
        let ids = issued(s, commands);
        assert forall|i: int, j: int| 0 <= i < j < ids.len() implies ids[i] < ids[j] by {
            if j < issued(s, earlier).len() {
            } else {
                assert(issued(s, earlier)[i] < run(s, earlier).next_id);
            }
        }
    }
}

/// An id below the next id that no player has stays without a player: no
/// run of commands brings a removed id back.
pub proof fn lemma_ids_never_reused(s: WorldState, commands: Seq<Command>, id: u32)
    requires
        well_formed(s),
        id < s.next_id,
        !has_player(s, id),
    ensures
        !has_player(run(s, commands), id),
    decreases commands.len(),
{
    if commands.len() > 0 {
        let earlier = commands.drop_last();
        let before = run(s, earlier);
        let c = commands.last();
        lemma_ids_never_reused(s, earlier, id);
        lemma_run_well_formed(s, earlier);
        match c {
            Command::Connect => {},
            Command::Disconnect { id: gone } => {
                if gone == id {
                    lemma_disconnect_removes(before, id);
                } else {
                    let rest = before.players.filter(all_but(gone));
                    assert forall|i: int| 0 <= i < rest.len() implies rest[i].id != id by {
                        assert(rest.contains(rest[i]));
                        before.players.lemma_filter_contains_rev(all_but(gone), rest[i]);
                        let j = choose|j: int|
                            0 <= j < before.players.len() && before.players[j] == rest[i];
                        assert(before.players[j].id == rest[i].id);
                    }
                }
            },
            Command::SetInterest { id: other, center, radius } => {},
            Command::SetPosition { id: other, position } => {},
            Command::SetRotation { id: other, rotation } => {},
        }
    }
}

/// Of two `SetPosition` commands for one player the later decides: the
/// world is as if the first had never been sent.
pub proof fn lemma_last_position_wins(s: WorldState, id: u32, first: Position, second: Position)
    ensures
        set_position(set_position(s, id, first), id, second) == set_position(s, id, second),
        run(
            s,
            seq![
                Command::SetPosition { id, position: first },
                Command::SetPosition { id, position: second },
            ],
        ) == set_position(s, id, second),
        forall|i: int|
            0 <= i < s.players.len() && s.players[i].id == id ==> (#[trigger] set_position(
                s,
                id,
                second,
            ).players[i]).position == second,
{
    assert(set_position(set_position(s, id, first), id, second).players =~= set_position(
        s,
        id,
        second,
    ).players);
    let one = Command::SetPosition { id, position: first };
    let two = Command::SetPosition { id, position: second };
    let both = seq![one, two];
    assert(both.drop_last() =~= seq![one]);
    assert(seq![one].drop_last() =~= Seq::<Command>::empty());
    assert(run(s, Seq::<Command>::empty()) == s);
    assert(run(s, seq![one]) == set_position(s, id, first));
}

/// A batch holds an entity exactly when that entity is another than the
/// viewer and stands within the viewer's region; it holds nothing else, and
/// in particular never the viewer itself.
pub proof fn lemma_visible_exact(
    entities: Seq<EntityRecord>,
    viewer: u32,
    center: Position,
    radius: u16,
)
    ensures
        forall|i: int|
            0 <= i < entities.len() && entities[i].id != viewer && within(
                center,
                radius,
                entities[i].position,
            ) ==> visible(entities, viewer, center, radius).contains(#[trigger] entities[i]),
        forall|k: int|
            0 <= k < visible(entities, viewer, center, radius).len() ==> {
                let r = #[trigger] visible(entities, viewer, center, radius)[k];
                &&& r.id != viewer
                &&& within(center, radius, r.position)
                &&& entities.contains(r)
            },
{
    let pred = seen_by(viewer, center, radius);
    let batch = visible(entities, viewer, center, radius);
    assert forall|i: int|
        0 <= i < entities.len() && entities[i].id != viewer && within(
            center,
            radius,
            entities[i].position,
        ) implies batch.contains(#[trigger] entities[i]) by {
        assert(pred(entities[i]));
        entities.lemma_filter_contains(pred, i);
    }
    assert forall|k: int| 0 <= k < batch.len() implies ({
        let r = #[trigger] batch[k];
        &&& r.id != viewer
        &&& within(center, radius, r.position)
        &&& entities.contains(r)
    }) by {
        entities.lemma_filter_pred(pred, k);
        assert(batch.contains(batch[k]));
        entities.lemma_filter_contains_rev(pred, batch[k]);
    }
}

/// A player never finds itself in the batch computed for it.
pub proof fn lemma_never_sees_itself(
    entities: Seq<EntityRecord>,
    viewer: u32,
    center: Position,
    radius: u16,
)
    ensures
        forall|k: int|
            0 <= k < visible(entities, viewer, center, radius).len() ==> (#[trigger] visible(
                entities,
                viewer,
                center,
                radius,
            )[k]).id != viewer,
{
    lemma_visible_exact(entities, viewer, center, radius);
}

/// What a broadcast pass offers a player depends on where the players
/// stand and on nothing else: no outbox, full or not, has a part in it.
pub proof fn lemma_offer_ignores_outboxes(
    players: Seq<PlayerState>,
    others: Seq<PlayerState>,
    p: PlayerState,
)
    requires
        records(players) == records(others),
    ensures
        offered(players, p) == offered(others, p),
{
}

/// A player whose outbox takes nothing costs the others nothing: after a
/// broadcast pass every other player either holds exactly the payload it
/// was offered or, its own outbox refusing, is as it was.
pub proof fn lemma_drop_stalls_nobody(before: WorldState, after: WorldState, slow: int)
    requires
        broadcast_step(before, after),
        0 <= slow < before.players.len(),
        after.players[slow] == before.players[slow],
    ensures
        forall|i: int|
            0 <= i < before.players.len() && i != slow ==> served(
                before.players,
                #[trigger] before.players[i],
                after.players[i],
            ),
        records(after.players) == records(before.players),
        after.next_id == before.next_id,
{
    assert forall|i: int| 0 <= i < before.players.len() implies record_of(after.players[i])
        == record_of(#[trigger] before.players[i]) by {
        assert(served(before.players, before.players[i], after.players[i]));
    }
    assert(records(after.players) =~= records(before.players));
}

} // verus!
