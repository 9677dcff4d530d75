//! Who is on the ice: placing players, taking them off, and handing the skaters
//! their input.
use crate::behaviour::HQMServerBehaviour;
use crate::hqm_game::{
    GameView, HQMGameObject, HQMPlacement, HQMPlayerInput, HQMSkater, HQMSkaterHand,
    HQMSpawnTable, HQMTeam, MessageView, WorldView,
};
use crate::players::PlayerView;
use crate::search::lemma_first_from;
use crate::server::{spawn_placement, HQMSpawnPoint, ServerView};
use crate::terms::{
    all_hear, other_objects_same, others_hear, others_same, skates, stands_at,
};
use crate::tick::{tick_started, timeouts_done, PhaseView};
use vstd::prelude::*;

verus! {

/// The skater that is found for a player is the first one on the ice, and one is
/// found exactly if there is one.
pub proof fn law_skater_is_found(world: WorldView, i: usize, k: usize)
    requires
        world.objects.len() <= usize::MAX,
    ensures
        world.skater_slot(i) == Some(k) <==> stands_at(world.objects, i, k as int),
        world.skater_slot(i) is None <==> forall|j: int| !#[trigger] skates(world.objects, i, j),
{
    let p = |o: HQMGameObject| o.is_skater_of(i);
    lemma_first_from(world.objects, p, 0);
    assert forall|j: int| 0 <= j < world.objects.len() implies skates(world.objects, i, j) == p(
        #[trigger] world.objects[j],
    ) by {}
    if let Some(a) = world.skater_slot(i) {
        assert(skates(world.objects, i, a as int));
        assert forall|j: int| 0 <= j < a implies !#[trigger] skates(world.objects, i, j) by {
            assert(!p(world.objects[j]));
        }
        if stands_at(world.objects, i, k as int) {
            assert(skates(world.objects, i, k as int));
            assert(!(a < k));
            assert(!(k < a));
        }
    } else {
        assert forall|j: int| !#[trigger] skates(world.objects, i, j) by {
            if 0 <= j < world.objects.len() {
                assert(!p(world.objects[j]));
            }
        }
    }
}

/// The next skater goes to the first empty slot behind those kept for pucks.
pub proof fn law_free_slot_is_the_first(world: WorldView, k: usize)
    requires
        world.objects.len() <= usize::MAX,
    ensures
        world.free_slot() == Some(k) <==> {
            &&& world.puck_slots <= k < world.objects.len()
            &&& world.objects[k as int] is Empty
            &&& forall|j: int| world.puck_slots <= j < k ==> !((#[trigger] world.objects[j]) is Empty)
        },
        world.free_slot() is None <==> forall|j: int|
            world.puck_slots <= j < world.objects.len() ==> !((#[trigger] world.objects[j])
                is Empty),
{
    lemma_first_from(world.objects, |o: HQMGameObject| o is Empty, world.puck_slots as int);
}

/// Of all that is on the ice only the skater of the player goes: the slot that
/// held it is empty, and every other slot holds what it held before.
pub proof fn law_only_the_skater_goes(world: WorldView, i: usize)
    requires
        world.objects.len() <= usize::MAX,
    ensures
        ({
            let after = world.without_skater(i);
            &&& after.objects.len() == world.objects.len()
            &&& after.puck_slots == world.puck_slots
            &&& after.spawns == world.spawns
            &&& forall|k: int|
                0 <= k < world.objects.len() ==> #[trigger] after.objects[k] == (if stands_at(
                    world.objects,
                    i,
                    k,
                ) {
                    HQMGameObject::Empty
                } else {
                    world.objects[k]
                })
        }),
{
    let after = world.without_skater(i);
    law_skater_is_found(world, i, 0);
    if let Some(slot) = world.skater_slot(i) {
        law_skater_is_found(world, i, slot);
    }
    assert forall|k: int| 0 <= k < world.objects.len() implies #[trigger] after.objects[k] == (
    if stands_at(world.objects, i, k) {
        HQMGameObject::Empty
    } else {
        world.objects[k]
    }) by {
        law_skater_is_found(world, i, k as usize);
    }
}

/// A player who leaves the server takes nothing along but their own skater: all
/// other objects, all other players and the rest of the game stay. The others are
/// told that the player has left.
pub proof fn law_leaving_moves_nobody_else(s: ServerView, i: usize)
    requires
        s.numbered(),
    ensures
        ({
            let t = s.without_player(i);
            let gone = i < s.players.len() && s.players[i as int] is Some;
            &&& !gone ==> t == s
            &&& gone ==> {
                let news = MessageView::PlayerUpdate {
                    player_name: s.players[i as int]->0.player_name,
                    object: None,
                    player_index: i,
                    in_server: false,
                };
                &&& t.players[i as int] is None
                &&& others_hear(s.players, t.players, i as int, news)
                &&& t == (ServerView {
                    players: t.players,
                    allow_join: t.allow_join,
                    game: GameView {
                        world: WorldView { objects: t.game.world.objects, ..s.game.world },
                        replay_messages: s.game.replay_messages.push(news),
                        persistent_messages: s.game.persistent_messages.push(news),
                        ..s.game
                    },
                    ..s
                })
                &&& t.game.world.objects.len() == s.game.world.objects.len()
                &&& forall|k: int|
                    0 <= k < s.game.world.objects.len() ==> #[trigger] t.game.world.objects[k]
                        == (if stands_at(s.game.world.objects, i, k) {
                        HQMGameObject::Empty
                    } else {
                        s.game.world.objects[k]
                    })
            }
        }),
{
    reveal(ServerView::broadcast);
    reveal(ServerView::without_player);
    law_only_the_skater_goes(s.game.world, i);
}

/// A player who is taken off the ice stays in the server. Nothing but their skater
/// goes, and everybody is told. Who has no skater stays as they are.
pub proof fn law_spectating_moves_nobody_else(s: ServerView, i: usize)
    requires
        s.numbered(),
    ensures
        ({
            let t = s.spectating(i);
            let objects = s.game.world.objects;
            let goes = i < s.players.len() && s.players[i as int] is Some && exists|k: int|
                skates(objects, i, k);
            &&& !goes ==> t == s
            &&& goes ==> {
                let news = MessageView::PlayerUpdate {
                    player_name: s.players[i as int]->0.player_name,
                    object: None,
                    player_index: i,
                    in_server: true,
                };
                &&& all_hear(s.players, t.players, news)
                &&& t == (ServerView {
                    players: t.players,
                    game: GameView {
                        world: WorldView { objects: t.game.world.objects, ..s.game.world },
                        replay_messages: s.game.replay_messages.push(news),
                        persistent_messages: s.game.persistent_messages.push(news),
                        ..s.game
                    },
                    ..s
                })
                &&& t.game.world.objects.len() == objects.len()
                &&& forall|k: int|
                    0 <= k < objects.len() ==> #[trigger] t.game.world.objects[k] == (
                    if stands_at(objects, i, k) {
                        HQMGameObject::Empty
                    } else {
                        objects[k]
                    })
            }
        }),
{
    reveal(ServerView::broadcast);
    reveal(ServerView::spectating);
    law_only_the_skater_goes(s.game.world, i);
    law_skater_is_found(s.game.world, i, 0);
}

/// A player who is placed on the ice stands there anew, in the slot that their
/// skater had, or else in the first empty one behind those kept for pucks. All
/// other objects stay, and everybody is told where the player is. If there is no
/// room nothing happens.
#[verifier::spinoff_prover]
pub proof fn law_placing_moves_nobody_else(
    s: ServerView,
    i: usize,
    team: HQMTeam,
    start: HQMPlacement,
    k: usize,
)
    requires
        s.numbered(),
        i < s.players.len(),
        s.players[i as int] is Some,
        stands_at(s.game.world.objects, i, k as int) || {
            &&& forall|j: int| !#[trigger] skates(s.game.world.objects, i, j)
            &&& s.game.world.puck_slots <= k < s.game.world.objects.len()
            &&& s.game.world.objects[k as int] is Empty
            &&& forall|j: int|
                s.game.world.puck_slots <= j < k ==> !((#[trigger] s.game.world.objects[j])
                    is Empty)
        },
    ensures
        ({
            let t = s.on_ice(i, team, start);
            let p = s.players[i as int]->0;
            let news = MessageView::PlayerUpdate {
                player_name: p.player_name,
                object: Some((k, team)),
                player_index: i,
                in_server: true,
            };
            let enters = !skates(s.game.world.objects, i, k as int);
            &&& others_hear(s.players, t.players, i as int, news)
            &&& t.players[i as int] == Some(
                PlayerView {
                    view_player_index: if enters {
                        i
                    } else {
                        p.view_player_index
                    },
                    messages: p.messages.push(news),
                    ..p
                },
            )
            &&& t == (ServerView {
                players: t.players,
                game: GameView {
                    world: WorldView { objects: t.game.world.objects, ..s.game.world },
                    replay_messages: s.game.replay_messages.push(news),
                    persistent_messages: s.game.persistent_messages.push(news),
                    ..s.game
                },
                ..s
            })
            &&& other_objects_same(s.game.world.objects, t.game.world.objects, k as int)
            &&& t.game.world.objects[k as int] == HQMGameObject::Player(
                HQMSkater {
                    connected_player_index: i,
                    team,
                    hand: p.hand,
                    mass: p.mass,
                    input: HQMPlayerInput {
                        stick_angle: 0,
                        turn: 0,
                        unknown: 0,
                        fwbw: 0,
                        stick: (0, 0),
                        head_rot: 0,
                        body_rot: 0,
                        keys: 0,
                    },
                    start,
                    packet: start.packet,
                },
            )
            &&& s.enters_ice(i) == enters
        }),
{
    reveal(ServerView::broadcast);
    reveal(ServerView::on_ice);
    law_skater_is_found(s.game.world, i, k);
    law_free_slot_is_the_first(s.game.world, k);
}

/// Who is not in the server is not placed on the ice, and neither is who has no
/// skater when there is no empty slot.
pub proof fn law_nobody_is_placed_without_room(
    s: ServerView,
    i: usize,
    team: HQMTeam,
    start: HQMPlacement,
)
    requires
        s.numbered(),
        i >= s.players.len() || s.players[i as int] is None || {
            &&& forall|j: int| !#[trigger] skates(s.game.world.objects, i, j)
            &&& forall|j: int|
                s.game.world.puck_slots <= j < s.game.world.objects.len() ==> !((
                #[trigger] s.game.world.objects[j]) is Empty)
        },
    ensures
        s.on_ice(i, team, start) == s,
        !s.enters_ice(i),
{
    reveal(ServerView::on_ice);
    law_skater_is_found(s.game.world, i, 0);
    law_free_slot_is_the_first(s.game.world, 0);
}

/// Each team has its own two places where it enters the ice.
pub proof fn law_teams_enter_at_their_own_places(spawns: HQMSpawnTable)
    ensures
        spawn_placement(spawns, HQMTeam::Red, HQMSpawnPoint::Center) == spawns.red_center,
        spawn_placement(spawns, HQMTeam::Red, HQMSpawnPoint::Bench) == spawns.red_bench,
        spawn_placement(spawns, HQMTeam::Blue, HQMSpawnPoint::Center) == spawns.blue_center,
        spawn_placement(spawns, HQMTeam::Blue, HQMSpawnPoint::Bench) == spawns.blue_bench,
{
}

/// A player has the hand that they have chosen. Between periods their skater has
/// it at once; during a period the skater keeps its hand, and the player is told
/// so. Nobody else is told, and no other object changes.
#[verifier::spinoff_prover]
pub proof fn law_hand_is_chosen(s: ServerView, i: usize, hand: HQMSkaterHand, k: int)
    requires
        s.numbered(),
        i < s.players.len(),
        s.players[i as int] is Some,
        stands_at(s.game.world.objects, i, k) || k == -1 && forall|j: int|
            !#[trigger] skates(s.game.world.objects, i, j),
    ensures
        ({
            let t = s.with_hand(i, hand);
            let p = s.players[i as int]->0;
            let note = MessageView::Chat {
                player_index: None,
                message: "Stick hand will change after next intermission"@,
            };
            &&& others_same(s.players, t.players, i as int)
            &&& t.players[i as int] == Some(
                PlayerView {
                    hand,
                    messages: if k >= 0 && s.game.period != 0 {
                        p.messages.push(note)
                    } else {
                        p.messages
                    },
                    ..p
                },
            )
            &&& t == (ServerView {
                players: t.players,
                game: GameView {
                    world: WorldView { objects: t.game.world.objects, ..s.game.world },
                    ..s.game
                },
                ..s
            })
            &&& other_objects_same(s.game.world.objects, t.game.world.objects, k)
            &&& k >= 0 ==> t.game.world.objects[k] == HQMGameObject::Player(
                HQMSkater {
                    hand: if s.game.period != 0 {
                        s.game.world.objects[k]->Player_0.hand
                    } else {
                        hand
                    },
                    ..s.game.world.objects[k]->Player_0
                },
            )
        }),
{
    reveal(ServerView::with_hand);
    law_skater_is_found(s.game.world, i, k as usize);
    let p = s.players[i as int]->0;
    let chosen = s.with_player(i, PlayerView { hand, ..p });
    if k >= 0 && s.game.period != 0 {
        let line = "Stick hand will change after next intermission"@;
        assert(s.with_hand(i, hand) == chosen.tell(i, line));
        reveal(ServerView::directed);
    }
}

/// Before the objects are moved every skater that stands for a connected player
/// has the input of that player, whatever the slot of the player. Nothing else
/// about the skaters changes, and nothing else in the server.
pub proof fn law_inputs_are_handed_out(s: ServerView, k: int)
    requires
        s.numbered(),
        0 <= k < s.game.world.objects.len(),
    ensures
        ({
            let t = s.with_inputs();
            let before = s.game.world.objects;
            let after = t.game.world.objects;
            &&& t == (ServerView {
                game: GameView { world: WorldView { objects: after, ..s.game.world }, ..s.game },
                ..s
            })
            &&& after.len() == before.len()
            &&& forall|i: usize|
                #![trigger stands_at(before, i, k)]
                stands_at(before, i, k) && i < s.players.len() && s.players[i as int] is Some
                    ==> after[k] == HQMGameObject::Player(
                    HQMSkater { input: s.players[i as int]->0.input, ..before[k]->Player_0 },
                )
            &&& (forall|i: usize| #[trigger]
                stands_at(before, i, k) ==> i >= s.players.len() || s.players[i as int] is None)
                ==> after[k] == before[k]
        }),
{
    reveal(ServerView::with_inputs);
    let before = s.game.world.objects;
    if let HQMGameObject::Player(skater) = before[k] {
        law_skater_is_found(s.game.world, skater.connected_player_index, k as usize);
    }
    assert forall|i: usize| #![trigger stands_at(before, i, k)] stands_at(before, i, k) implies i
        == before[k]->Player_0.connected_player_index by {
        assert(skates(before, i, k));
    }
}

/// After a step has begun with players in the server, every skater that stands
/// for a connected player has the input of that player.
#[verifier::spinoff_prover]
pub proof fn law_step_begins_with_inputs<B: HQMServerBehaviour>(
    b0: B,
    s0: ServerView,
    b1: B,
    s1: ServerView,
    phase: PhaseView,
    i: usize,
    k: int,
)
    requires
        s1.numbered(),
        tick_started(b0, s0, b1, s1, phase),
        phase is Simulate,
        i < s1.players.len(),
        s1.players[i as int] is Some,
        stands_at(s1.game.world.objects, i, k),
    ensures
        s1.game.world.objects[k]->Player_0.input == s1.players[i as int]->0.input,
{
    let list = s0.aged().timed_out();
    let (b, s, t) = choose|b: B, s: ServerView, t: ServerView|
        #![trigger timeouts_done(b0, s0.aged(), list, b, s), B::tick_begins(b, s.tell_timed_out(list), b1, t)]
        timeouts_done(b0, s0.aged(), list, b, s) && B::tick_begins(
            b,
            s.tell_timed_out(list),
            b1,
            t,
        ) && s1 == t.with_inputs();
    lemma_inputs_places(t);
    let before = t.game.world.objects;
    let after = s1.game.world.objects;
    assert(skates(after, i, k));
    assert forall|j: int| 0 <= j < k implies !#[trigger] skates(before, i, j) by {
        assert(!skates(after, i, j));
    }
    assert(stands_at(before, i, k));
    law_inputs_are_handed_out(t, k);
}

/// Handing out inputs changes nobody's place.
proof fn lemma_inputs_places(s: ServerView)
    ensures
        ({
            let t = s.with_inputs();
            &&& t.players == s.players
            &&& t.game.world.objects.len() == s.game.world.objects.len()
            &&& forall|i: usize, j: int|
                #![trigger skates(t.game.world.objects, i, j)]
                #![trigger skates(s.game.world.objects, i, j)]
                skates(t.game.world.objects, i, j) == skates(s.game.world.objects, i, j)
        }),
{
    reveal(ServerView::with_inputs);
}

} // verus!
