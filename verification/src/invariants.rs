//! What every operation on the server keeps.
use crate::answers::{answered, lemma_commands_answer, lemma_hand_answers};
use crate::behaviour::HQMServerBehaviour;
use crate::bits::stream_byte;
use crate::commands::RequestView;
use crate::hqm_game::{
    GameView, HQMGameObject, HQMPlacement, HQMSkater, HQMSkaterHand, HQMTeam, MessageView,
    WorldView,
};
use crate::players::{
    empty_slot, slot_of_addr, HQMClientVersion, HQMSocketAddr, PlayerView,
};
use crate::search::lemma_first_from;
use crate::server::{player_news, ServerView};
use crate::session::{
    bytes_at, command_done, exit_done, join_done, message_done, message_handled, new_chat, parsed_update,
    reaction_of, update_done, update_version, ReactionView, UpdateView,
};
use crate::text::{argument_of, command_of};
use crate::updates::game_header;
use vstd::prelude::*;
use vstd::utf8::decode_utf8;

verus! {

/// No two players send from the same address.
pub open spec fn distinct_addrs(slots: Seq<Option<PlayerView>>) -> bool {
    forall|i: int, j: int|
        0 <= i < j < slots.len() && (#[trigger] slots[i]) is Some && (#[trigger] slots[j]) is Some
            ==> slots[i]->0.addr != slots[j]->0.addr
}

/// No player has two skaters on the ice.
pub open spec fn distinct_skaters(objects: Seq<HQMGameObject>) -> bool {
    forall|i: int, j: int|
        0 <= i < j < objects.len() && (#[trigger] objects[i]) is Player && (
        #[trigger] objects[j]) is Player ==> objects[i]->Player_0.connected_player_index
            != objects[j]->Player_0.connected_player_index
}

/// Player `i` has one skater on the ice at most.
pub open spec fn single_skater(objects: Seq<HQMGameObject>, i: usize) -> bool {
    forall|a: int, b: int|
        0 <= a < b < objects.len() && (#[trigger] objects[a]).is_skater_of(i) ==> !(
        #[trigger] objects[b]).is_skater_of(i)
}

impl ServerView {
    /// Object slot `k`, if it holds a skater, holds that of a connected player,
    /// who sees the game through their own eyes.
    pub open spec fn skater_at_home(self, k: int) -> bool {
        match self.game.world.objects[k] {
            HQMGameObject::Player(skater) => match self.player(skater.connected_player_index) {
                Some(player) => player.view_player_index == skater.connected_player_index,
                None => false,
            },
            _ => true,
        }
    }

    /// Slots can be numbered.
    pub open spec fn numbered(self) -> bool {
        self.players.len() <= usize::MAX && self.game.world.objects.len() <= usize::MAX
    }

    /// Every address and every skater belongs to one connected player, and a
    /// player on the ice does not look at the game through the eyes of another.
    #[verifier::opaque]
    pub open spec fn consistent(self) -> bool {
        &&& self.numbered()
        &&& distinct_addrs(self.players)
        &&& distinct_skaters(self.game.world.objects)
        &&& forall|k: int|
            0 <= k < self.game.world.objects.len() ==> #[trigger] self.skater_at_home(k)
    }
}

/// Two player lists with the same addresses, where everybody sees the same.
pub open spec fn same_people(a: Seq<Option<PlayerView>>, b: Seq<Option<PlayerView>>) -> bool {
    &&& a.len() == b.len()
    &&& forall|i: int|
        0 <= i < a.len() ==> match (#[trigger] a[i], b[i]) {
            (Some(p), Some(q)) => p.addr == q.addr && p.view_player_index == q.view_player_index,
            (None, None) => true,
            _ => false,
        }
}

/// Two object lists with the skaters of the same players in the same slots.
pub open spec fn same_skaters(a: Seq<HQMGameObject>, b: Seq<HQMGameObject>) -> bool {
    &&& a.len() == b.len()
    &&& forall|k: int|
        0 <= k < a.len() ==> match (#[trigger] a[k], b[k]) {
            (HQMGameObject::Player(x), HQMGameObject::Player(y)) => x.connected_player_index
                == y.connected_player_index,
            (HQMGameObject::Player(_), _) => false,
            (_, HQMGameObject::Player(_)) => false,
            _ => true,
        }
}

/// Consistency depends on nothing but who is where.
#[verifier::spinoff_prover]
pub proof fn lemma_same_consistent(s: ServerView, t: ServerView)
    requires
        s.consistent(),
        same_people(s.players, t.players),
        same_skaters(s.game.world.objects, t.game.world.objects),
    ensures
        t.consistent(),
{
    reveal(ServerView::consistent);
    let a = s.game.world.objects;
    let b = t.game.world.objects;
    assert forall|i: int, j: int|
        0 <= i < j < t.players.len() && (#[trigger] t.players[i]) is Some && (
        #[trigger] t.players[j]) is Some implies t.players[i]->0.addr != t.players[j]->0.addr by {
        assert(s.players[i] is Some && s.players[j] is Some);
    }
    assert forall|i: int, j: int|
        0 <= i < j < b.len() && (#[trigger] b[i]) is Player && (
        #[trigger] b[j]) is Player implies b[i]->Player_0.connected_player_index
        != b[j]->Player_0.connected_player_index by {
        assert(a[i] is Player && a[j] is Player);
    }
    assert forall|k: int| 0 <= k < b.len() implies #[trigger] t.skater_at_home(k) by {
        assert(s.skater_at_home(k));
        if let HQMGameObject::Player(skater) = b[k] {
            assert(a[k] is Player);
            assert(s.players[skater.connected_player_index as int] is Some);
        }
    }
}

/// A message to everybody changes nobody's place.
pub proof fn lemma_broadcast_consistent(s: ServerView, message: MessageView, persistent: bool)
    requires
        s.consistent(),
    ensures
        s.broadcast(message, persistent).consistent(),
{
    reveal(ServerView::broadcast);
    lemma_same_consistent(s, s.broadcast(message, persistent));
}

/// A message to one player changes nobody's place.
pub proof fn lemma_directed_consistent(
    s: ServerView,
    receiver: usize,
    sender: Option<usize>,
    message: Seq<char>,
)
    requires
        s.consistent(),
    ensures
        s.directed(receiver, sender, message).consistent(),
{
    reveal(ServerView::directed);
    lemma_same_consistent(s, s.directed(receiver, sender, message));
}

/// The skater that is found is one of the player, and no slot before it holds another.
pub proof fn lemma_skater_slot(world: WorldView, i: usize)
    requires
        world.objects.len() <= usize::MAX,
    ensures
        match world.skater_slot(i) {
            Some(k) => k < world.objects.len() && world.objects[k as int].is_skater_of(i),
            None => forall|k: int|
                0 <= k < world.objects.len() ==> !(#[trigger] world.objects[k]).is_skater_of(i),
        },
{
    lemma_first_from(world.objects, |o: HQMGameObject| o.is_skater_of(i), 0);
}

/// Without its skater a player has none.
pub proof fn lemma_without_skater(world: WorldView, i: usize)
    requires
        world.objects.len() <= usize::MAX,
        distinct_skaters(world.objects),
    ensures
        ({
            let objects = world.without_skater(i).objects;
            &&& objects.len() == world.objects.len()
            &&& distinct_skaters(objects)
            &&& forall|k: int| 0 <= k < objects.len() ==> !(#[trigger] objects[k]).is_skater_of(i)
            &&& forall|k: int|
                0 <= k < objects.len() && (#[trigger] objects[k]) is Player ==> objects[k]
                    == world.objects[k]
        }),
{
    lemma_skater_slot(world, i);
    let objects = world.without_skater(i).objects;
    assert forall|k: int| 0 <= k < objects.len() implies !(#[trigger] objects[k]).is_skater_of(
        i,
    ) by {
        if let Some(slot) = world.skater_slot(i) {
            if k != slot {
                assert(objects[k] == world.objects[k]);
                assert(world.objects[slot as int] is Player);
            }
        } else {
            assert(!world.objects[k].is_skater_of(i));
        }
    }
    assert forall|a: int, b: int|
        0 <= a < b < objects.len() && (#[trigger] objects[a]) is Player && (
        #[trigger] objects[b]) is Player implies objects[a]->Player_0.connected_player_index
        != objects[b]->Player_0.connected_player_index by {
        assert(world.objects[a] is Player && world.objects[b] is Player);
    }
}

/// A server without the skater of a player is consistent.
pub proof fn lemma_off_ice_consistent(s: ServerView, i: usize)
    requires
        s.consistent(),
    ensures
        s.with_world(s.game.world.without_skater(i)).consistent(),
{
    reveal(ServerView::consistent);
    lemma_without_skater(s.game.world, i);
    let t = s.with_world(s.game.world.without_skater(i));
    assert forall|k: int| 0 <= k < t.game.world.objects.len() implies #[trigger] t.skater_at_home(
        k,
    ) by {
        assert(s.skater_at_home(k));
        if t.game.world.objects[k] is Player {
            assert(t.game.world.objects[k] == s.game.world.objects[k]);
        }
    }
}

/// A player who leaves the ice keeps the server consistent.
pub proof fn lemma_spectating_consistent(s: ServerView, i: usize)
    requires
        s.consistent(),
    ensures
        s.spectating(i).consistent(),
{
    reveal(ServerView::spectating);
    if let Some(player) = s.player(i) {
        lemma_off_ice_consistent(s, i);
        lemma_broadcast_consistent(
            s.with_world(s.game.world.without_skater(i)),
            player_news(i, player.player_name, None, true),
            true,
        );
    }
}

/// A player who leaves keeps the server consistent.
#[verifier::spinoff_prover]
pub proof fn lemma_without_player_consistent(s: ServerView, i: usize)
    requires
        s.consistent(),
    ensures
        s.without_player(i).consistent(),
{
    reveal(ServerView::consistent);
    reveal(ServerView::broadcast);
    reveal(ServerView::without_player);
    if let Some(player) = s.player(i) {
        lemma_off_ice_consistent(s, i);
        lemma_without_skater(s.game.world, i);
        let off = s.with_world(s.game.world.without_skater(i));
        let told = off.broadcast(player_news(i, player.player_name, None, false), true);
        lemma_broadcast_consistent(off, player_news(i, player.player_name, None, false), true);
        let t = s.without_player(i);
        assert(t.game.world == off.game.world);
        assert(t.players == told.players.update(i as int, None));
        assert forall|a: int, b: int|
            0 <= a < b < t.players.len() && (#[trigger] t.players[a]) is Some && (
            #[trigger] t.players[b]) is Some implies t.players[a]->0.addr
            != t.players[b]->0.addr by {
            assert(told.players[a] is Some && told.players[b] is Some);
        }
        assert forall|k: int|
            0 <= k < t.game.world.objects.len() implies #[trigger] t.skater_at_home(k) by {
            assert(told.skater_at_home(k));
            assert(!off.game.world.objects[k].is_skater_of(i));
        }
    }
}

/// A player who joins from a new address keeps the server consistent.
#[verifier::spinoff_prover]
pub proof fn lemma_new_player_consistent(
    s: ServerView,
    i: usize,
    name: Seq<char>,
    addr: HQMSocketAddr,
)
    requires
        s.consistent(),
        empty_slot(s.players) == Some(i),
        slot_of_addr(s.players, addr) is None,
    ensures
        s.with_new_player(i, name, addr).consistent(),
{
    reveal(ServerView::consistent);
    reveal(ServerView::broadcast);
    reveal(ServerView::with_new_player);
    let news = player_news(i, name, None, true);
    let told = s.broadcast(news, true);
    let t = s.with_new_player(i, name, addr);
    lemma_broadcast_consistent(s, news, true);
    lemma_first_from(s.players, |p: Option<PlayerView>| p is None, 0);
    lemma_first_from(s.players, |p: Option<PlayerView>| p is Some && p->0.addr == addr, 0);
    assert forall|a: int, b: int|
        0 <= a < b < t.players.len() && (#[trigger] t.players[a]) is Some && (
        #[trigger] t.players[b]) is Some implies t.players[a]->0.addr != t.players[b]->0.addr by {
        if a != i {
            assert(told.players[a] is Some);
            assert(s.players[a] is Some && s.players[a]->0.addr == told.players[a]->0.addr);
        }
        if b != i {
            assert(told.players[b] is Some);
            assert(s.players[b] is Some && s.players[b]->0.addr == told.players[b]->0.addr);
        }
    }
    assert forall|k: int| 0 <= k < t.game.world.objects.len() implies #[trigger] t.skater_at_home(
        k,
    ) by {
        assert(told.skater_at_home(k));
    }
}

/// A player who is placed on the ice keeps the server consistent.
#[verifier::spinoff_prover]
pub proof fn lemma_on_ice_consistent(s: ServerView, i: usize, team: HQMTeam, start: HQMPlacement)
    requires
        s.consistent(),
    ensures
        s.on_ice(i, team, start).consistent(),
{
    reveal(ServerView::consistent);
    reveal(ServerView::on_ice);
    let world = s.game.world;
    lemma_skater_slot(world, i);
    if let Some(player) = s.player(i) {
        let skater = HQMGameObject::Player(
            HQMSkater::fresh(team, start, player.hand, i, player.mass),
        );
        match world.skater_slot(i) {
            Some(slot) => {
                let t = s.with_world(world.with_object(slot, skater));
                lemma_same_consistent(s, t);
                lemma_broadcast_consistent(
                    t,
                    player_news(i, player.player_name, Some((slot, team)), true),
                    true,
                );
            },
            None => {
                lemma_first_from(
                    world.objects,
                    |o: HQMGameObject| o is Empty,
                    world.puck_slots as int,
                );
                if let Some(slot) = world.free_slot() {
                    let t = s.with_world(world.with_object(slot, skater)).with_player(
                        i,
                        PlayerView { view_player_index: i, ..player },
                    );
                    lemma_enter_ice_consistent(s, t, i, slot);
                    lemma_broadcast_consistent(
                        t,
                        player_news(i, player.player_name, Some((slot, team)), true),
                        true,
                    );
                }
            },
        }
    }
}

#[verifier::spinoff_prover]
proof fn lemma_enter_ice_consistent(s: ServerView, t: ServerView, i: usize, slot: usize)
    requires
        s.consistent(),
        i < s.players.len(),
        s.players[i as int] is Some,
        slot < s.game.world.objects.len(),
        forall|k: int|
            0 <= k < s.game.world.objects.len() ==> !(
            #[trigger] s.game.world.objects[k]).is_skater_of(i),
        t.players.len() == s.players.len(),
        t.players[i as int] matches Some(p) && p.view_player_index == i && p.addr
            == s.players[i as int]->0.addr,
        forall|j: int|
            0 <= j < s.players.len() && j != i ==> #[trigger] t.players[j] == s.players[j],
        t.game.world.objects.len() == s.game.world.objects.len(),
        t.game.world.objects[slot as int].is_skater_of(i),
        forall|k: int|
            0 <= k < s.game.world.objects.len() && k != slot
                ==> #[trigger] t.game.world.objects[k] == s.game.world.objects[k],
    ensures
        t.consistent(),
{
    reveal(ServerView::consistent);
    let a = s.game.world.objects;
    let b = t.game.world.objects;
    assert forall|x: int, y: int|
        0 <= x < y < t.players.len() && (#[trigger] t.players[x]) is Some && (
        #[trigger] t.players[y]) is Some implies t.players[x]->0.addr != t.players[y]->0.addr by {
        assert(s.players[x] is Some && s.players[y] is Some);
    }
    assert forall|x: int, y: int|
        0 <= x < y < b.len() && (#[trigger] b[x]) is Player && (
        #[trigger] b[y]) is Player implies b[x]->Player_0.connected_player_index
        != b[y]->Player_0.connected_player_index by {
        assert(!a[x].is_skater_of(i) && !a[y].is_skater_of(i));
    }
    assert forall|k: int| 0 <= k < b.len() implies #[trigger] t.skater_at_home(k) by {
        assert(s.skater_at_home(k));
        assert(!a[k].is_skater_of(i));
    }
}

/// A player who chooses a hand keeps the server consistent.
pub proof fn lemma_with_hand_consistent(s: ServerView, i: usize, hand: HQMSkaterHand)
    requires
        s.consistent(),
    ensures
        s.with_hand(i, hand).consistent(),
{
    lemma_hand_answers(s, i, hand);
    lemma_answered_consistent(s, s.with_hand(i, hand), i);
}

/// Moving a player onto the ice or off it, choosing a hand, and leaving keep
/// the server consistent.
pub proof fn law_moves_keep_consistency(
    s: ServerView,
    i: usize,
    team: HQMTeam,
    start: HQMPlacement,
    hand: HQMSkaterHand,
)
    requires
        s.consistent(),
    ensures
        s.on_ice(i, team, start).consistent(),
        s.spectating(i).consistent(),
        s.with_hand(i, hand).consistent(),
        s.without_player(i).consistent(),
{
    lemma_on_ice_consistent(s, i, team, start);
    lemma_spectating_consistent(s, i);
    lemma_with_hand_consistent(s, i, hand);
    lemma_without_player_consistent(s, i);
}

/// A command that the server knows keeps the server consistent.
pub proof fn lemma_command_consistent(s: ServerView, command: Seq<char>, arg: Seq<char>, i: usize)
    requires
        s.consistent(),
    ensures
        match s.after_command(command, arg, i) {
            Some((t, _)) => t.consistent(),
            None => true,
        },
{
    lemma_commands_answer(s, command, arg, i);
    if let Some((t, _)) = s.after_command(command, arg, i) {
        lemma_answered_consistent(s, t, i);
    }
}

/// An answer to a command keeps the server consistent.
proof fn lemma_answered_consistent(s: ServerView, t: ServerView, i: usize)
    requires
        s.consistent(),
        answered(s, t, i),
    ensures
        t.consistent(),
{
    reveal(ServerView::consistent);
    reveal(answered);
    let a = s.game.world.objects;
    let b = t.game.world.objects;
    lemma_skater_slot(s.game.world, i);
    assert forall|x: int, y: int|
        0 <= x < y < t.players.len() && (#[trigger] t.players[x]) is Some && (
        #[trigger] t.players[y]) is Some implies t.players[x]->0.addr != t.players[y]->0.addr by {
        assert(x != i ==> t.players[x] == s.players[x]);
        assert(y != i ==> t.players[y] == s.players[y]);
        assert(s.players[x] is Some && s.players[y] is Some);
    }
    assert forall|x: int, y: int|
        0 <= x < y < b.len() && (#[trigger] b[x]) is Player && (
        #[trigger] b[y]) is Player implies b[x]->Player_0.connected_player_index
        != b[y]->Player_0.connected_player_index by {
        assert(a[x] is Player && a[y] is Player);
    }
    assert forall|k: int| 0 <= k < b.len() implies #[trigger] t.skater_at_home(k) by {
        assert(s.skater_at_home(k));
        if let HQMGameObject::Player(skater) = b[k] {
            assert(a[k] is Player);
            let n = skater.connected_player_index;
            assert(s.players[n as int] is Some);
            assert(n != i ==> t.players[n as int] == s.players[n as int]);
            assert(a[k].is_skater_of(n));
        }
    }
}

/// What an update says, but for the chat, changes nobody's place.
pub proof fn lemma_after_update_consistent(
    s: ServerView,
    i: usize,
    u: UpdateView,
    version: HQMClientVersion,
    now: u64,
)
    requires
        s.consistent(),
        s.player(i) is Some,
    ensures
        s.after_update(i, u, version, now).consistent(),
{
    lemma_same_consistent(s, s.after_update(i, u, version, now));
}

/// What a player says changes nobody's place.
pub proof fn lemma_after_chat_consistent(s: ServerView, i: usize, line: Seq<char>)
    requires
        s.consistent(),
    ensures
        s.after_chat(i, line).consistent(),
{
    lemma_broadcast_consistent(
        s,
        MessageView::Chat { player_index: Some(i), message: line },
        false,
    );
    lemma_directed_consistent(s, i, Some(i), line);
}

/// The rules of play keep the server consistent, and start games without skaters.
pub open spec fn keeps_consistent<B: HQMServerBehaviour>() -> bool {
    &&& forall|b0: B, s0: ServerView, i: usize, b1: B, s1: ServerView|
        s0.consistent() && #[trigger] B::player_joined(b0, s0, i, b1, s1) ==> s1.consistent()
    &&& forall|b0: B, s0: ServerView, i: usize, b1: B, s1: ServerView|
        s0.consistent() && #[trigger] B::player_exits(b0, s0, i, b1, s1) ==> s1.consistent()
    &&& forall|
        b0: B,
        s0: ServerView,
        command: Seq<char>,
        arg: Seq<char>,
        i: usize,
        b1: B,
        s1: ServerView,
    |
        s0.consistent() && #[trigger] B::command_handled(b0, s0, command, arg, i, b1, s1)
            ==> s1.consistent()
    &&& forall|b0: B, s0: ServerView, b1: B, s1: ServerView|
        s0.consistent() && #[trigger] B::tick_begins(b0, s0, b1, s1) ==> s1.consistent()
    &&& forall|b0: B, s0: ServerView, events: Seq<B::Event>, b1: B, s1: ServerView|
        s0.consistent() && #[trigger] B::tick_ends(b0, s0, events, b1, s1) ==> s1.consistent()
    &&& forall|b0: B, b1: B, game: GameView| #[trigger]
        B::game_created(b0, b1, game) ==> without_skaters(game.world)
}

/// There is no skater on the ice.
pub open spec fn without_skaters(world: WorldView) -> bool {
    &&& world.objects.len() <= usize::MAX
    &&& forall|k: int| 0 <= k < world.objects.len() ==> !((#[trigger] world.objects[k]) is Player)
}

proof fn lemma_message_consistent<B: HQMServerBehaviour>(
    b0: B,
    s0: ServerView,
    bytes: Seq<u8>,
    i: usize,
    b1: B,
    s1: ServerView,
    request: Option<RequestView>,
)
    requires
        keeps_consistent::<B>(),
        s0.consistent(),
        message_done(b0, s0, bytes, i, b1, s1, request),
    ensures
        s1.consistent(),
{
    reveal(message_done);
    reveal(command_done);
    let line = decode_utf8(bytes);
    lemma_command_consistent(s0, command_of(line), argument_of(line), i);
    lemma_after_chat_consistent(s0, i, line);
}

proof fn lemma_join_consistent<B: HQMServerBehaviour>(
    b0: B,
    s0: ServerView,
    addr: HQMSocketAddr,
    msg: Seq<u8>,
    p: nat,
    b1: B,
    s1: ServerView,
)
    requires
        keeps_consistent::<B>(),
        s0.consistent(),
        join_done(b0, s0, addr, s0.join_name(addr, msg, p), b1, s1),
    ensures
        s1.consistent(),
{
    reveal(join_done);
    match (s0.join_name(addr, msg, p), empty_slot(s0.players)) {
        (Some(name), Some(i)) => {
            lemma_new_player_consistent(s0, i, name, addr);
            let joined = s0.with_new_player(i, name, addr);
            let s = choose|s: ServerView| #[trigger]
                B::player_joined(b0, joined, i, b1, s) && s1 == s.chat(None, name + " joined"@);
            lemma_broadcast_consistent(
                s,
                MessageView::Chat { player_index: None, message: name + " joined"@ },
                false,
            );
        },
        _ => {},
    }
}

proof fn lemma_exit_consistent<B: HQMServerBehaviour>(
    b0: B,
    s0: ServerView,
    addr: HQMSocketAddr,
    b1: B,
    s1: ServerView,
)
    requires
        keeps_consistent::<B>(),
        s0.consistent(),
        exit_done(b0, s0, addr, b1, s1),
    ensures
        s1.consistent(),
{
    reveal(exit_done);
    if let Some(i) = slot_of_addr(s0.players, addr) {
        let s = choose|s: ServerView| #[trigger]
            B::player_exits(b0, s0, i, b1, s) && s.player(i) is Some && s1 == s.without_player(
                i,
            ).chat(None, s.player(i)->0.player_name + " exited"@);
        lemma_without_player_consistent(s, i);
        lemma_broadcast_consistent(
            s.without_player(i),
            MessageView::Chat {
                player_index: None,
                message: s.player(i)->0.player_name + " exited"@,
            },
            false,
        );
    }
}

/// Whatever a client sends, the server stays consistent, if the rules of play
/// see to it that they keep it so.
#[verifier::spinoff_prover]
pub proof fn law_messages_keep_consistency<B: HQMServerBehaviour>(
    b0: B,
    s0: ServerView,
    addr: HQMSocketAddr,
    msg: Seq<u8>,
    now: u64,
    b1: B,
    s1: ServerView,
    reaction: ReactionView,
)
    requires
        keeps_consistent::<B>(),
        s0.consistent(),
        message_handled(b0, s0, addr, msg, now, b1, s1, reaction),
    ensures
        s1.consistent(),
{
    reveal(ServerView::consistent);
    reveal(update_done);
    let command = stream_byte(msg, 4);
    if bytes_at(msg, 0, 4) == game_header() {
        if command == 2 {
            lemma_join_consistent(b0, s0, addr, msg, 40, b1, s1);
        } else if command == 7 {
            lemma_exit_consistent(b0, s0, addr, b1, s1);
        } else if command != 0 {
            if let Some(version) = update_version(command) {
                let u = parsed_update(msg, 40, version);
                let request = choose|request: Option<RequestView>| #[trigger]
                    reaction_of(request) == reaction && update_done(
                        b0,
                        s0,
                        addr,
                        u,
                        version,
                        now,
                        b1,
                        s1,
                        request,
                    );
                if let Some(i) = slot_of_addr(s0.players, addr) {
                    lemma_first_from(
                        s0.players,
                        |p: Option<PlayerView>| p is Some && p->0.addr == addr,
                        0,
                    );
                    lemma_after_update_consistent(s0, i, u, version, now);
                    if let Some((_, message)) = new_chat(s0.player(i)->0, u) {
                        lemma_message_consistent(
                            b0,
                            s0.after_update(i, u, version, now),
                            message,
                            i,
                            b1,
                            s1,
                            request,
                        );
                    }
                }
            }
        }
    }
}

} // verus!
