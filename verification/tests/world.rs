use tokio::sync::mpsc;
use tokio::sync::oneshot;
use world_actor::wire::{decode_batch, EntityRecord};
use world_actor::world::{
    visible_among, ActorEvent, ActorState, Delivery, Outcome, PlayerHandShake, World, WorldMsg,
    COMMAND_CAPACITY, OUTBOX_CAPACITY,
};

fn new_world() -> (World, mpsc::Sender<WorldMsg>) {
    let (tx, rx) = mpsc::channel::<WorldMsg>(COMMAND_CAPACITY);
    (World::new(rx), tx)
}

fn join(world: &mut World) -> PlayerHandShake {
    match world.connect() {
        Some(shake) => shake,
        None => panic!("the world should have ids left"),
    }
}

fn next_batch(shake: &mut PlayerHandShake) -> Option<Vec<EntityRecord>> {
    match shake.rx.try_recv() {
        Ok(bytes) => match decode_batch(&bytes) {
            Some(batch) => Some(batch),
            None => panic!("a broadcast should decode"),
        },
        Err(_) => None,
    }
}

fn ids(batch: &[EntityRecord]) -> Vec<u32> {
    batch.iter().map(|r| r.id).collect()
}

fn at(id: u32, x: i32) -> EntityRecord {
    EntityRecord { id, position: (x, 0, 0), rotation: (0, 0, 0) }
}

#[test]
fn new_world_is_empty_and_running() {
    let (world, _tx) = new_world();
    assert_eq!(world.player_count(), 0);
    assert_eq!(world.next_id(), 1);
    assert_eq!(world.current_state(), ActorState::Running);
    assert!(world.snapshot().is_empty());
}

#[test]
fn ids_are_distinct_and_strictly_increasing() {
    let (mut world, _tx) = new_world();
    let mut seen: Vec<u32> = Vec::new();
    for _ in 0..50 {
        let shake = join(&mut world);
        assert_ne!(shake.id, 0);
        if let Some(last) = seen.last() {
            assert!(*last < shake.id);
        }
        assert!(!seen.contains(&shake.id));
        seen.push(shake.id);
    }
    assert_eq!(seen, (1..=50).collect::<Vec<u32>>());
    assert_eq!(world.next_id(), 51);
}

#[test]
fn ids_are_not_reused_after_a_disconnect() {
    let (mut world, _tx) = new_world();
    let a = join(&mut world);
    let b = join(&mut world);
    world.disconnect(b.id);
    world.disconnect(a.id);
    let c = join(&mut world);
    assert_eq!((a.id, b.id, c.id), (1, 2, 3));
    assert!(!world.contains(1));
    assert!(!world.contains(2));
    assert!(world.contains(3));
}

#[test]
fn new_player_starts_at_the_origin_without_interest() {
    let (mut world, _tx) = new_world();
    let a = join(&mut world);
    assert_eq!(world.entity(a.id), Some(at(a.id, 0)));
    assert_eq!(world.interest_of(a.id), None);
}

#[test]
fn disconnect_is_idempotent() {
    let (mut world, _tx) = new_world();
    let a = join(&mut world);
    let b = join(&mut world);
    world.set_position(b.id, (4, 5, 6));
    world.disconnect(a.id);
    let after_first = world.snapshot();
    assert_eq!(after_first, vec![EntityRecord { id: 2, position: (4, 5, 6), rotation: (0, 0, 0) }]);
    world.disconnect(a.id);
    assert_eq!(world.snapshot(), after_first);
    assert_eq!(world.next_id(), 3);
}

#[test]
fn disconnect_of_an_id_never_issued_changes_nothing() {
    let (mut world, _tx) = new_world();
    let _a = join(&mut world);
    let before = world.snapshot();
    world.disconnect(0);
    world.disconnect(77);
    world.disconnect(u32::MAX);
    assert_eq!(world.snapshot(), before);
    assert_eq!(world.player_count(), 1);
    assert_eq!(world.next_id(), 2);
}

#[test]
fn disconnect_closes_the_outbox() {
    let (mut world, _tx) = new_world();
    let mut a = join(&mut world);
    world.disconnect(a.id);
    assert_eq!(a.rx.try_recv(), Err(mpsc::error::TryRecvError::Disconnected));
}

#[test]
fn commands_for_unknown_ids_change_nothing() {
    let (mut world, _tx) = new_world();
    let a = join(&mut world);
    let b = join(&mut world);
    world.set_position(a.id, (1, 2, 3));
    world.set_interest(a.id, (0, 0, 0), 9);
    world.disconnect(b.id);
    let before = world.snapshot();
    for id in [0, b.id, 3, 1000, u32::MAX] {
        world.set_interest(id, (1, 1, 1), 5);
        world.set_position(id, (9, 9, 9));
        world.set_rotation(id, (8, 8, 8));
        assert_eq!(world.entity(id), None);
        assert_eq!(world.interest_of(id), None);
    }
    assert_eq!(world.snapshot(), before);
    assert_eq!(world.interest_of(a.id), Some(((0, 0, 0), 9)));
    assert_eq!(world.player_count(), 1);
}

#[test]
fn setters_change_one_field_of_one_player() {
    let (mut world, _tx) = new_world();
    let a = join(&mut world);
    let b = join(&mut world);
    let c = join(&mut world);
    world.set_position(b.id, (1, -2, 3));
    world.set_rotation(b.id, (90, 0, -90));
    world.set_interest(b.id, (5, 5, 5), 65_535);
    assert_eq!(
        world.snapshot(),
        vec![
            at(a.id, 0),
            EntityRecord { id: b.id, position: (1, -2, 3), rotation: (90, 0, -90) },
            at(c.id, 0),
        ]
    );
    assert_eq!(world.interest_of(a.id), None);
    assert_eq!(world.interest_of(b.id), Some(((5, 5, 5), 65_535)));
    assert_eq!(world.interest_of(c.id), None);
}

#[test]
fn later_position_wins() {
    let (mut world, tx) = new_world();
    let a = join(&mut world);
    assert!(tx.try_send(WorldMsg::SetPosition { id: a.id, position: (1, 0, 0) }).is_ok());
    assert!(tx.try_send(WorldMsg::SetPosition { id: a.id, position: (2, 0, 0) }).is_ok());
    let end = world.drain(COMMAND_CAPACITY);
    assert_eq!(end.applied, 2);
    assert!(!end.closed);
    assert_eq!(world.entity(a.id), Some(at(a.id, 2)));
}

#[test]
fn batch_holds_who_is_in_range_and_drops_who_moved_away() {
    let (mut world, _tx) = new_world();
    let mut a = join(&mut world);
    let b = join(&mut world);
    world.set_interest(a.id, (0, 0, 0), 10);
    world.set_position(b.id, (5, 0, 0));
    world.broadcast_tick();
    assert_eq!(next_batch(&mut a), Some(vec![at(b.id, 5)]));
    world.set_position(b.id, (20, 0, 0));
    world.broadcast_tick();
    assert_eq!(next_batch(&mut a), Some(Vec::new()));
    assert_eq!(next_batch(&mut a), None);
}

#[test]
fn player_is_never_in_its_own_batch() {
    let (mut world, _tx) = new_world();
    let mut a = join(&mut world);
    world.set_interest(a.id, (0, 0, 0), 100);
    world.broadcast_tick();
    assert_eq!(next_batch(&mut a), Some(Vec::new()));
    let mut b = join(&mut world);
    world.set_interest(b.id, (0, 0, 0), 100);
    world.broadcast_tick();
    assert_eq!(next_batch(&mut a), Some(vec![at(b.id, 0)]));
    assert_eq!(next_batch(&mut b), Some(vec![at(a.id, 0)]));
}

#[test]
fn player_without_interest_is_seen_but_hears_nothing() {
    let (mut world, _tx) = new_world();
    let mut a = join(&mut world);
    let mut b = join(&mut world);
    world.set_interest(a.id, (0, 0, 0), 1);
    world.broadcast_tick();
    assert_eq!(next_batch(&mut a), Some(vec![at(b.id, 0)]));
    assert_eq!(next_batch(&mut b), None);
}

#[test]
fn interest_is_centred_on_the_region_not_on_the_player() {
    let (mut world, _tx) = new_world();
    let mut a = join(&mut world);
    let b = join(&mut world);
    world.set_position(a.id, (1000, 0, 0));
    world.set_interest(a.id, (0, 0, 0), 10);
    world.set_position(b.id, (3, 4, 0));
    world.broadcast_tick();
    assert_eq!(
        next_batch(&mut a),
        Some(vec![EntityRecord { id: b.id, position: (3, 4, 0), rotation: (0, 0, 0) }])
    );
}

#[test]
fn batch_lists_entities_in_ascending_order_of_id() {
    let (mut world, _tx) = new_world();
    let mut shakes: Vec<PlayerHandShake> = Vec::new();
    for _ in 0..6 {
        shakes.push(join(&mut world));
    }
    world.disconnect(3);
    world.set_interest(4, (0, 0, 0), 0);
    world.broadcast_tick();
    let batch = next_batch(&mut shakes[3]);
    assert_eq!(batch.map(|b| ids(&b)), Some(vec![1, 2, 5, 6]));
}

#[test]
fn three_players_scenario() {
    let (mut world, _tx) = new_world();
    let mut one = join(&mut world);
    let mut two = join(&mut world);
    let mut three = join(&mut world);
    for id in [one.id, two.id, three.id] {
        world.set_interest(id, (0, 0, 0), 100);
    }
    world.set_position(one.id, (0, 0, 0));
    world.set_position(two.id, (1, 0, 0));
    world.set_position(three.id, (200, 0, 0));
    world.broadcast_tick();
    assert_eq!(next_batch(&mut one), Some(vec![at(two.id, 1)]));
    assert_eq!(next_batch(&mut two), Some(vec![at(one.id, 0)]));
    // The third player stands far away, but its region is centred at the
    // origin like the others': it hears about both of them, and they do not
    // hear about it.
    assert_eq!(next_batch(&mut three), Some(vec![at(one.id, 0), at(two.id, 1)]));
}

#[test]
fn three_players_with_regions_around_themselves() {
    let (mut world, _tx) = new_world();
    let mut one = join(&mut world);
    let mut two = join(&mut world);
    let mut three = join(&mut world);
    world.set_position(one.id, (0, 0, 0));
    world.set_position(two.id, (1, 0, 0));
    world.set_position(three.id, (200, 0, 0));
    world.set_interest(one.id, (0, 0, 0), 100);
    world.set_interest(two.id, (1, 0, 0), 100);
    world.set_interest(three.id, (200, 0, 0), 100);
    world.broadcast_tick();
    assert_eq!(next_batch(&mut one), Some(vec![at(two.id, 1)]));
    assert_eq!(next_batch(&mut two), Some(vec![at(one.id, 0)]));
    assert_eq!(next_batch(&mut three), Some(Vec::new()));
}

#[test]
fn full_outbox_drops_its_broadcast_and_stalls_nobody() {
    let (mut world, _tx) = new_world();
    let mut slow = join(&mut world);
    let mut quick = join(&mut world);
    world.set_interest(slow.id, (0, 0, 0), 10);
    world.set_interest(quick.id, (0, 0, 0), 10);
    for _ in 0..OUTBOX_CAPACITY {
        world.broadcast_tick();
        assert_eq!(next_batch(&mut quick), Some(vec![at(slow.id, 0)]));
    }
    // The slow player's outbox is full now. Move, so that a later payload
    // can be told from the ones that wait.
    world.set_position(quick.id, (7, 0, 0));
    world.broadcast_tick();
    world.broadcast_tick();
    assert_eq!(next_batch(&mut quick), Some(vec![at(slow.id, 0)]));
    assert_eq!(next_batch(&mut quick), Some(vec![at(slow.id, 0)]));
    assert_eq!(next_batch(&mut quick), None);
    let mut waiting = 0;
    while let Some(batch) = next_batch(&mut slow) {
        assert_eq!(batch, vec![at(quick.id, 0)]);
        waiting += 1;
    }
    assert_eq!(waiting, OUTBOX_CAPACITY);
    // With room again the next pass is taken.
    world.broadcast_tick();
    assert_eq!(next_batch(&mut slow), Some(vec![at(quick.id, 7)]));
}

#[test]
fn broadcast_to_a_session_that_is_gone_is_dropped() {
    let (mut world, _tx) = new_world();
    let gone = join(&mut world);
    let mut here = join(&mut world);
    world.set_interest(gone.id, (0, 0, 0), 10);
    world.set_interest(here.id, (0, 0, 0), 10);
    let gone_id = gone.id;
    drop(gone);
    world.broadcast_tick();
    assert_eq!(next_batch(&mut here), Some(vec![at(gone_id, 0)]));
    assert!(world.contains(gone_id));
}

#[test]
fn report_of_an_empty_world_is_empty() {
    let (mut world, _tx) = new_world();
    assert_eq!(world.broadcast_tick(), Vec::new());
}

#[test]
fn report_has_a_line_for_every_player_in_order_of_ids() {
    let (mut world, _tx) = new_world();
    let mut a = join(&mut world);
    let _b = join(&mut world);
    let gone = join(&mut world);
    let mut d = join(&mut world);
    world.set_interest(a.id, (0, 0, 0), 10);
    world.set_interest(d.id, (500, 0, 0), 1);
    world.disconnect(gone.id);
    let report = world.broadcast_tick();
    assert_eq!(
        report,
        vec![
            Delivery { id: 1, outcome: Outcome::Delivered },
            Delivery { id: 2, outcome: Outcome::Skipped },
            Delivery { id: 4, outcome: Outcome::Delivered },
        ]
    );
    assert_eq!(next_batch(&mut a), Some(vec![at(2, 0), at(4, 0)]));
    assert_eq!(next_batch(&mut d), Some(Vec::new()));
}

#[test]
fn report_tells_a_full_outbox_from_one_that_took_the_payload() {
    let (mut world, _tx) = new_world();
    let mut slow = join(&mut world);
    let mut quick = join(&mut world);
    world.set_interest(slow.id, (0, 0, 0), 10);
    world.set_interest(quick.id, (0, 0, 0), 10);
    let both = vec![
        Delivery { id: slow.id, outcome: Outcome::Delivered },
        Delivery { id: quick.id, outcome: Outcome::Delivered },
    ];
    for _ in 0..OUTBOX_CAPACITY {
        assert_eq!(world.broadcast_tick(), both);
        assert_eq!(next_batch(&mut quick), Some(vec![at(slow.id, 0)]));
    }
    assert_eq!(
        world.broadcast_tick(),
        vec![
            Delivery { id: slow.id, outcome: Outcome::Dropped },
            Delivery { id: quick.id, outcome: Outcome::Delivered },
        ]
    );
    assert_eq!(next_batch(&mut quick), Some(vec![at(slow.id, 0)]));
    // One payload taken out makes room for one more.
    assert_eq!(next_batch(&mut slow), Some(vec![at(quick.id, 0)]));
    assert_eq!(world.broadcast_tick(), both);
}

#[test]
fn report_tells_a_closed_outbox() {
    let (mut world, _tx) = new_world();
    let gone = join(&mut world);
    let mut here = join(&mut world);
    world.set_interest(gone.id, (0, 0, 0), 10);
    world.set_interest(here.id, (0, 0, 0), 10);
    let gone_id = gone.id;
    drop(gone);
    assert_eq!(
        world.broadcast_tick(),
        vec![
            Delivery { id: gone_id, outcome: Outcome::Dropped },
            Delivery { id: here.id, outcome: Outcome::Delivered },
        ]
    );
    assert_eq!(next_batch(&mut here), Some(vec![at(gone_id, 0)]));
}

#[test]
fn broadcast_changes_no_state() {
    let (mut world, _tx) = new_world();
    let a = join(&mut world);
    let b = join(&mut world);
    world.set_interest(a.id, (1, 2, 3), 4);
    world.set_position(b.id, (5, 6, 7));
    let before = world.snapshot();
    world.broadcast_tick();
    assert_eq!(world.snapshot(), before);
    assert_eq!(world.interest_of(a.id), Some(((1, 2, 3), 4)));
    assert_eq!(world.interest_of(b.id), None);
    assert_eq!(world.next_id(), 3);
}

#[test]
fn visible_among_filters_by_distance_and_identity() {
    let entities = vec![at(1, 0), at(2, 10), at(3, 11), at(4, -10), at(5, -11)];
    assert_eq!(ids(&visible_among(&entities, 1, (0, 0, 0), 10)), vec![2, 4]);
    assert_eq!(ids(&visible_among(&entities, 9, (0, 0, 0), 10)), vec![1, 2, 4]);
    assert_eq!(ids(&visible_among(&entities, 2, (11, 0, 0), 1)), vec![3]);
    assert!(visible_among(&Vec::new(), 1, (0, 0, 0), 10).is_empty());
}

#[test]
fn connect_message_is_answered_through_its_reply_channel() {
    let (mut world, _tx) = new_world();
    let (reply, mut answer) = oneshot::channel::<PlayerHandShake>();
    world.handle_msg(WorldMsg::Connect { reply });
    let mut shake = match answer.try_recv() {
        Ok(shake) => shake,
        Err(_) => panic!("the world should have answered"),
    };
    assert_eq!(shake.id, 1);
    assert!(world.contains(1));
    let other = join(&mut world);
    world.set_interest(1, (0, 0, 0), 10);
    world.broadcast_tick();
    assert_eq!(next_batch(&mut shake), Some(vec![at(other.id, 0)]));
}

#[test]
fn connect_message_from_a_session_that_gave_up_still_adds_the_player() {
    let (mut world, _tx) = new_world();
    let (reply, answer) = oneshot::channel::<PlayerHandShake>();
    drop(answer);
    world.handle_msg(WorldMsg::Connect { reply });
    assert_eq!(world.player_count(), 1);
    assert_eq!(world.next_id(), 2);
}

#[test]
fn messages_do_what_the_direct_calls_do() {
    let (mut world, _tx) = new_world();
    let a = join(&mut world);
    let b = join(&mut world);
    world.handle_msg(WorldMsg::SetPosition { id: a.id, position: (1, 2, 3) });
    world.handle_msg(WorldMsg::SetRotation { id: a.id, rotation: (4, 5, 6) });
    world.handle_msg(WorldMsg::SetInterest { id: a.id, center: (7, 8, 9), radius: 10 });
    world.handle_msg(WorldMsg::Disconnect { id: b.id });
    assert_eq!(
        world.snapshot(),
        vec![EntityRecord { id: a.id, position: (1, 2, 3), rotation: (4, 5, 6) }]
    );
    assert_eq!(world.interest_of(a.id), Some(((7, 8, 9), 10)));
}

#[test]
fn drain_applies_in_arrival_order_and_stops_at_its_limit() {
    let (mut world, tx) = new_world();
    let a = join(&mut world);
    for x in 1..=5 {
        assert!(tx.try_send(WorldMsg::SetPosition { id: a.id, position: (x, 0, 0) }).is_ok());
    }
    let first = world.drain(3);
    assert_eq!((first.applied, first.closed), (3, false));
    assert_eq!(world.entity(a.id), Some(at(a.id, 3)));
    let second = world.drain(0);
    assert_eq!((second.applied, second.closed), (0, false));
    let third = world.drain(10);
    assert_eq!((third.applied, third.closed), (2, false));
    assert_eq!(world.entity(a.id), Some(at(a.id, 5)));
    drop(tx);
    let last = world.drain(10);
    assert_eq!((last.applied, last.closed), (0, true));
}

#[test]
fn command_event_is_applied_at_once_without_a_broadcast() {
    let (mut world, _tx) = new_world();
    let mut a = join(&mut world);
    let b = join(&mut world);
    world.set_interest(a.id, (0, 0, 0), 10);
    let event = ActorEvent::Command(WorldMsg::SetPosition { id: b.id, position: (1, 0, 0) });
    assert_eq!(world.step(event), ActorState::Running);
    assert_eq!(world.entity(b.id), Some(at(b.id, 1)));
    assert_eq!(next_batch(&mut a), None);
}

#[test]
fn tick_drains_then_broadcasts_once() {
    let (mut world, tx) = new_world();
    let mut a = join(&mut world);
    let b = join(&mut world);
    world.set_interest(a.id, (0, 0, 0), 10);
    assert!(tx.try_send(WorldMsg::SetPosition { id: b.id, position: (3, 0, 0) }).is_ok());
    assert!(tx.try_send(WorldMsg::SetPosition { id: b.id, position: (4, 0, 0) }).is_ok());
    assert_eq!(world.step(ActorEvent::Tick), ActorState::Running);
    assert_eq!(next_batch(&mut a), Some(vec![at(b.id, 4)]));
    assert_eq!(next_batch(&mut a), None);
}

#[test]
fn tick_applies_everything_that_waits() {
    let (mut world, tx) = new_world();
    let a = join(&mut world);
    for x in 1..=(COMMAND_CAPACITY as i32) {
        assert!(tx.try_send(WorldMsg::SetPosition { id: a.id, position: (x, 0, 0) }).is_ok());
    }
    assert!(tx.try_send(WorldMsg::Disconnect { id: a.id }).is_err());
    assert_eq!(world.step(ActorEvent::Tick), ActorState::Running);
    assert_eq!(world.entity(a.id), Some(at(a.id, COMMAND_CAPACITY as i32)));
    assert_eq!(world.drain(1).applied, 0);
}

#[test]
fn tick_without_messages_still_broadcasts() {
    let (mut world, _tx) = new_world();
    let mut a = join(&mut world);
    world.set_interest(a.id, (0, 0, 0), 10);
    assert_eq!(world.step(ActorEvent::Tick), ActorState::Running);
    assert_eq!(world.step(ActorEvent::Tick), ActorState::Running);
    assert_eq!(next_batch(&mut a), Some(Vec::new()));
    assert_eq!(next_batch(&mut a), Some(Vec::new()));
    assert_eq!(next_batch(&mut a), None);
}

#[test]
fn closed_channel_stops_the_actor_after_what_is_left() {
    let (mut world, tx) = new_world();
    let mut a = join(&mut world);
    let b = join(&mut world);
    world.set_interest(a.id, (0, 0, 0), 10);
    assert!(tx.try_send(WorldMsg::SetPosition { id: b.id, position: (3, 0, 0) }).is_ok());
    drop(tx);
    assert_eq!(world.step(ActorEvent::Tick), ActorState::Running);
    assert_eq!(world.entity(b.id), Some(at(b.id, 3)));
    assert_eq!(next_batch(&mut a), Some(vec![at(b.id, 3)]));
    assert_eq!(world.step(ActorEvent::Closed), ActorState::Stopped);
    assert_eq!(world.current_state(), ActorState::Stopped);
    assert_eq!(world.step(ActorEvent::Tick), ActorState::Stopped);
    assert_eq!(next_batch(&mut a), None);
}

#[test]
fn stopped_is_final() {
    let (mut world, tx) = new_world();
    let mut a = join(&mut world);
    let b = join(&mut world);
    world.set_interest(a.id, (0, 0, 0), 10);
    assert_eq!(world.step(ActorEvent::Closed), ActorState::Stopped);
    assert!(tx.try_send(WorldMsg::SetPosition { id: b.id, position: (3, 0, 0) }).is_ok());
    assert_eq!(world.step(ActorEvent::Tick), ActorState::Stopped);
    let event = ActorEvent::Command(WorldMsg::SetPosition { id: b.id, position: (9, 0, 0) });
    assert_eq!(world.step(event), ActorState::Stopped);
    assert_eq!(world.step(ActorEvent::Closed), ActorState::Stopped);
    assert_eq!(world.entity(b.id), Some(at(b.id, 0)));
    assert_eq!(next_batch(&mut a), None);
    assert_eq!(world.current_state(), ActorState::Stopped);
}
