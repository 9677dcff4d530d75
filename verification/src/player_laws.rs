//! What players can rely on: who is told what, who may join, and what is left
//! of a player who has gone.
use crate::answers::{answered, lemma_commands_answer};
use crate::behaviour::HQMServerBehaviour;
use crate::bits::stream_value;
use crate::commands::RequestView;
use crate::hqm_game::{
    HQMGameObject, HQMPlacement, HQMSkater, HQMTeam, MessageView, WorldView,
};
use crate::invariants::{lemma_skater_slot, single_skater};
use crate::players::{
    count_players, empty_slot, slot_of_addr, told_slot, HQMClientVersion, HQMMuteStatus,
    HQMSocketAddr, PlayerView,
};
use crate::search::{lemma_first_from, lemma_first_same};
use crate::server::{player_news, ServerView};
use crate::session::{bytes_at, exit_done, join_done, update_done, UpdateView};
use crate::text::player_name_of;
use crate::updates::{pending_messages, GAME_VERSION, MAX_UPDATE_MESSAGES};
use vstd::prelude::*;

verus! {

/// A message to everybody is the last that each connected player is given. It
/// goes into the replay; those who join later see it if it is persistent, and
/// only then.
pub proof fn law_message_reaches_everybody(
    s: ServerView,
    message: MessageView,
    persistent: bool,
    i: int,
)
    requires
        0 <= i < s.players.len(),
    ensures
        ({
            let t = s.broadcast(message, persistent);
            &&& t.players.len() == s.players.len()
            &&& t.players[i] == told_slot(s.players[i], message)
            &&& t.game.replay_messages == s.game.replay_messages.push(message)
            &&& t.game.persistent_messages == (if persistent {
                s.game.persistent_messages.push(message)
            } else {
                s.game.persistent_messages
            })
        }),
{
    reveal(ServerView::broadcast);
}

/// A directed message is seen by its receiver and by nobody else, neither now
/// nor later.
pub proof fn law_directed_message_is_private(
    s: ServerView,
    receiver: usize,
    sender: Option<usize>,
    message: Seq<char>,
    j: usize,
)
    ensures
        ({
            let t = s.directed(receiver, sender, message);
            &&& t.game == s.game
            &&& j != receiver ==> t.player(j) == s.player(j)
            &&& t.player(receiver) == told_slot(
                s.player(receiver),
                MessageView::Chat { player_index: sender, message },
            )
        }),
{
    reveal(ServerView::directed);
}

/// Who joins is told all persistent messages so far, the last of which is the
/// news of their own arrival, and then the welcome messages. All others are
/// told the news.
pub proof fn law_newcomer_is_told_everything(
    s: ServerView,
    i: usize,
    name: Seq<char>,
    addr: HQMSocketAddr,
    j: usize,
)
    requires
        i < s.players.len(),
    ensures
        ({
            let t = s.with_new_player(i, name, addr);
            let news = player_news(i, name, None, true);
            &&& t.player(i) == Some(
                PlayerView::joined(
                    i,
                    name,
                    addr,
                    s.game.persistent_messages.push(news) + s.welcome(),
                ),
            )
            &&& j != i ==> t.player(j) == told_slot(s.player(j), news)
        }),
{
    reveal(ServerView::broadcast);
    reveal(ServerView::with_new_player);
}

/// Filling or emptying a slot changes the number of players accordingly.
proof fn lemma_count_update(slots: Seq<Option<PlayerView>>, i: int, slot: Option<PlayerView>)
    requires
        0 <= i < slots.len(),
    ensures
        count_players(slots.update(i, slot)) + (if slots[i] is Some {
            1nat
        } else {
            0
        }) == count_players(slots) + (if slot is Some {
            1nat
        } else {
            0
        }),
    decreases slots.len(),
{
    let changed = slots.update(i, slot);
    if i == slots.len() - 1 {
        assert(changed.drop_last() =~= slots.drop_last());
    } else {
        assert(changed.drop_last() =~= slots.drop_last().update(i, slot));
        lemma_count_update(slots.drop_last(), i, slot);
    }
}

/// The number of players depends on which slots are taken.
proof fn lemma_count_same(a: Seq<Option<PlayerView>>, b: Seq<Option<PlayerView>>)
    requires
        a.len() == b.len(),
        forall|i: int| 0 <= i < a.len() ==> (#[trigger] a[i] is Some <==> b[i] is Some),
    ensures
        count_players(a) == count_players(b),
    decreases a.len(),
{
    if a.len() > 0 {
        lemma_count_same(a.drop_last(), b.drop_last());
        assert(a[a.len() - 1] is Some <==> b[a.len() - 1] is Some);
    }
}

/// Who has joined is found under their address, and counts as one player more.
pub proof fn law_joined_player_is_found(
    s: ServerView,
    i: usize,
    name: Seq<char>,
    addr: HQMSocketAddr,
)
    requires
        s.players.len() <= usize::MAX,
        empty_slot(s.players) == Some(i),
        slot_of_addr(s.players, addr) is None,
    ensures
        ({
            let t = s.with_new_player(i, name, addr);
            &&& slot_of_addr(t.players, addr) == Some(i)
            &&& count_players(t.players) == count_players(s.players) + 1
        }),
{
    reveal(ServerView::broadcast);
    reveal(ServerView::with_new_player);
    let told = s.broadcast(player_news(i, name, None, true), true);
    let t = s.with_new_player(i, name, addr);
    let p = |p: Option<PlayerView>| p is Some && p->0.addr == addr;
    lemma_first_from(s.players, |p: Option<PlayerView>| p is None, 0);
    lemma_first_from(s.players, p, 0);
    lemma_first_from(t.players, p, 0);
    assert(t.players[i as int] is Some && t.players[i as int]->0.addr == addr);
    assert forall|j: int| 0 <= j < t.players.len() && j != i implies !p(#[trigger] t.players[j]) by {
        assert(!p(s.players[j]));
    }
    lemma_count_same(s.players, told.players);
    lemma_count_update(told.players, i as int, t.players[i as int]);
}

/// The server never holds more players than it is set up for: who may join
/// still has room.
pub proof fn law_server_is_not_overfull(
    s: ServerView,
    i: usize,
    addr: HQMSocketAddr,
    bytes: Seq<u8>,
    p: nat,
)
    requires
        s.players.len() <= usize::MAX,
        empty_slot(s.players) == Some(i),
        s.join_name(addr, bytes, p) is Some,
    ensures
        count_players(
            s.with_new_player(i, s.join_name(addr, bytes, p)->0, addr).players,
        ) <= s.config.player_max,
{
    law_joined_player_is_found(s, i, s.join_name(addr, bytes, p)->0, addr);
}

/// A request to join changes nothing if the server is full, the client speaks
/// another version of the protocol, the client is connected already, its
/// address is banned, joining is disabled, its name is not valid, or there is
/// no free slot.
pub proof fn law_refused_join_changes_nothing<B: HQMServerBehaviour>(
    b0: B,
    s0: ServerView,
    addr: HQMSocketAddr,
    bytes: Seq<u8>,
    p: nat,
    b1: B,
    s1: ServerView,
)
    requires
        join_done(b0, s0, addr, s0.join_name(addr, bytes, p), b1, s1),
        ({
            ||| count_players(s0.players) >= s0.config.player_max
            ||| stream_value(bytes, p, 8) != GAME_VERSION
            ||| slot_of_addr(s0.players, addr) is Some
            ||| s0.ban_list.contains(addr.ip)
            ||| !s0.allow_join
            ||| player_name_of(bytes_at(bytes, p + 8, 32)) is None
            ||| empty_slot(s0.players) is None
        }),
    ensures
        b1 == b0,
        s1 == s0,
{
    reveal(join_done);
}

/// Who is not connected is not heard: neither what they say nor that they leave.
pub proof fn law_strangers_are_ignored<B: HQMServerBehaviour>(
    b0: B,
    s0: ServerView,
    addr: HQMSocketAddr,
    u: UpdateView,
    version: HQMClientVersion,
    now: u64,
    b1: B,
    s1: ServerView,
    request: Option<RequestView>,
)
    requires
        slot_of_addr(s0.players, addr) is None,
        update_done(b0, s0, addr, u, version, now, b1, s1, request) || exit_done(
            b0,
            s0,
            addr,
            b1,
            s1,
        ),
    ensures
        b1 == b0,
        s1 == s0,
{
    reveal(update_done);
    reveal(exit_done);
}

/// No player slot but `i` has the address of the player in slot `i`.
pub open spec fn addr_is_own(s: ServerView, i: usize) -> bool {
    forall|j: usize|
        j != i && (#[trigger] s.player(j)) is Some ==> s.player(j)->0.addr != s.player(i)->0.addr
}

/// Who has left is gone: the slot is free, everybody else has been told so once,
/// there is one player less, and removing them again changes nothing. No skater
/// is left on the ice if there was one at most, and the address is unknown if
/// nobody else had it.
pub proof fn law_left_player_is_gone(s: ServerView, i: usize, j: usize)
    requires
        s.numbered(),
        s.player(i) is Some,
    ensures
        ({
            let t = s.without_player(i);
            let news = player_news(i, s.player(i)->0.player_name, None, false);
            &&& t.players.len() == s.players.len()
            &&& t.player(i) is None
            &&& j != i ==> t.player(j) == told_slot(s.player(j), news)
            &&& t.game.replay_messages == s.game.replay_messages.push(news)
            &&& t.game.persistent_messages == s.game.persistent_messages.push(news)
            &&& count_players(t.players) + 1 == count_players(s.players)
            &&& t.without_player(i) == t
            &&& single_skater(s.game.world.objects, i) ==> t.game.world.skater_slot(i) is None
            &&& addr_is_own(s, i) ==> slot_of_addr(t.players, s.player(i)->0.addr) is None
        }),
{
    reveal(ServerView::broadcast);
    reveal(ServerView::without_player);
    let player = s.player(i)->0;
    let told = s.with_world(s.game.world.without_skater(i)).broadcast(
        player_news(i, player.player_name, None, false),
        true,
    );
    let t = s.without_player(i);
    if single_skater(s.game.world.objects, i) {
        lemma_single_skater_gone(s.game.world, i);
    }
    lemma_count_same(s.players, told.players);
    lemma_count_update(told.players, i as int, None);
    let p = |p: Option<PlayerView>| p is Some && p->0.addr == player.addr;
    lemma_first_from(t.players, p, 0);
    if addr_is_own(s, i) {
        assert forall|k: int| 0 <= k < t.players.len() implies !p(#[trigger] t.players[k]) by {
            if k != i && t.players[k] is Some {
                assert(s.player(k as usize) is Some);
            }
        }
    }
}

/// If a player has one skater at most, none is left when it has been taken off the ice.
proof fn lemma_single_skater_gone(world: WorldView, i: usize)
    requires
        world.objects.len() <= usize::MAX,
        single_skater(world.objects, i),
    ensures
        world.without_skater(i).skater_slot(i) is None,
{
    lemma_skater_slot(world, i);
    let after = world.without_skater(i);
    lemma_first_from(after.objects, |o: HQMGameObject| o.is_skater_of(i), 0);
    if let Some(k) = after.skater_slot(i) {
        if let Some(slot) = world.skater_slot(i) {
            assert(world.objects[k as int].is_skater_of(i));
            assert(world.objects[slot as int].is_skater_of(i));
        }
    }
}

/// When a player leaves, joining is allowed if it was before, or if this was
/// the last administrator.
pub proof fn law_last_administrator_opens_the_server(s: ServerView, i: usize)
    requires
        s.players.len() <= usize::MAX,
        s.player(i) is Some,
    ensures
        s.without_player(i).allow_join == (s.allow_join || (s.player(i)->0.is_admin && forall|
            j: usize,
        |
            j != i && (#[trigger] s.player(j)) is Some ==> !s.player(j)->0.is_admin)),
{
    reveal(ServerView::broadcast);
    reveal(ServerView::without_player);
    let player = s.player(i)->0;
    let told = s.with_world(s.game.world.without_skater(i)).broadcast(
        player_news(i, player.player_name, None, false),
        true,
    );
    let left = ServerView { players: told.players.update(i as int, None), ..told };
    if left.has_admin() {
        let k = choose|k: int|
            0 <= k < left.players.len() && (#[trigger] left.players[k]) is Some
                && left.players[k]->0.is_admin;
        assert(s.players[k] is Some && s.players[k]->0.is_admin);
        assert(k != i);
        assert(k <= usize::MAX ==> s.player(k as usize) is Some);
    } else {
        assert forall|j: usize| j != i && (#[trigger] s.player(j)) is Some implies !s.player(
            j,
        )->0.is_admin by {
            assert(left.players[j as int] is Some);
        }
    }
}

/// Joining and leaving again leaves everything as it was, but for the messages
/// that this gave rise to, and for a skater that stood on the ice for the free
/// slot.
pub proof fn law_leaving_undoes_joining(
    s: ServerView,
    i: usize,
    name: Seq<char>,
    addr: HQMSocketAddr,
    j: usize,
)
    requires
        s.players.len() <= usize::MAX,
        empty_slot(s.players) == Some(i),
    ensures
        ({
            let t = s.with_new_player(i, name, addr).without_player(i);
            let came = player_news(i, name, None, true);
            let went = player_news(i, name, None, false);
            &&& t.players.len() == s.players.len()
            &&& t.player(j) == told_slot(told_slot(s.player(j), came), went)
            &&& count_players(t.players) == count_players(s.players)
            &&& t.game.world == s.game.world.without_skater(i)
            &&& t.game.persistent_messages == s.game.persistent_messages.push(came).push(went)
            &&& t.game.replay_messages == s.game.replay_messages.push(came).push(went)
            &&& t.ban_list == s.ban_list
            &&& t.allow_join == s.allow_join
            &&& t.config == s.config
            &&& t.game_id == s.game_id
            &&& t.is_muted == s.is_muted
        }),
{
    reveal(ServerView::broadcast);
    reveal(ServerView::with_new_player);
    reveal(ServerView::without_player);
    lemma_first_from(s.players, |p: Option<PlayerView>| p is None, 0);
    lemma_count_same(s.players, s.with_new_player(i, name, addr).without_player(i).players);
}

/// A player who is placed on the ice is there for the team, in the slot that they
/// had, or else in the first free one. Who was not on the ice before sees through
/// their own eyes from now on.
pub proof fn law_placed_player_is_on_the_ice(
    s: ServerView,
    i: usize,
    team: HQMTeam,
    start: HQMPlacement,
)
    requires
        s.numbered(),
        s.player(i) is Some,
        s.enters_ice(i) || is_on_ice(s, i),
    ensures
        ({
            let t = s.on_ice(i, team, start);
            &&& is_on_ice(t, i)
            &&& t.game.world.skater_slot(i) == (if is_on_ice(s, i) {
                s.game.world.skater_slot(i)
            } else {
                s.game.world.free_slot()
            })
            &&& t.game.world.objects[t.game.world.skater_slot(i)->0 as int]
                == HQMGameObject::Player(
                HQMSkater::fresh(team, start, s.player(i)->0.hand, i, s.player(i)->0.mass),
            )
            &&& s.enters_ice(i) ==> t.player(i)->0.view_player_index == i
        }),
{
    reveal(ServerView::broadcast);
    reveal(ServerView::on_ice);
    let world = s.game.world;
    let after = s.on_ice(i, team, start).game.world;
    let p = |o: HQMGameObject| o.is_skater_of(i);
    lemma_skater_slot(world, i);
    lemma_first_from(world.objects, |o: HQMGameObject| o is Empty, world.puck_slots as int);
    lemma_first_from(after.objects, p, 0);
    if is_on_ice(s, i) {
        lemma_first_same(world.objects, after.objects, p, 0);
    } else {
        let slot = world.free_slot()->0;
        assert(p(after.objects[slot as int]));
        assert forall|k: int| 0 <= k < after.objects.len() && k != slot implies !p(
            #[trigger] after.objects[k],
        ) by {
            assert(!world.objects[k].is_skater_of(i));
        }
    }
}

/// The player in slot `i` is on the ice.
pub open spec fn is_on_ice(s: ServerView, i: usize) -> bool {
    s.player(i) is Some && s.game.world.skater_slot(i) is Some
}

/// A player who is taken off the ice stays connected, and everybody is told so
/// once. Who was not on the ice changes nothing. If the player had one skater at
/// most, none is left, and doing it again changes nothing.
pub proof fn law_spectator_is_off_the_ice(s: ServerView, i: usize, j: usize)
    requires
        s.numbered(),
    ensures
        ({
            let t = s.spectating(i);
            let news = player_news(i, s.player(i)->0.player_name, None, true);
            &&& !is_on_ice(s, i) ==> t == s
            &&& is_on_ice(s, i) ==> {
                &&& t.player(i) is Some
                &&& t.player(j) == told_slot(s.player(j), news)
                &&& t.game.replay_messages == s.game.replay_messages.push(news)
                &&& t.game.persistent_messages == s.game.persistent_messages.push(news)
                &&& t.game.world == s.game.world.without_skater(i)
            }
            &&& count_players(t.players) == count_players(s.players)
            &&& single_skater(s.game.world.objects, i) ==> !is_on_ice(t, i) && t.spectating(i) == t
        }),
{
    reveal(ServerView::broadcast);
    reveal(ServerView::spectating);
    if single_skater(s.game.world.objects, i) {
        lemma_single_skater_gone(s.game.world, i);
    }
    lemma_count_same(s.players, s.spectating(i).players);
}

/// What a player says when the chat is muted, or while muted themselves, nobody
/// hears. What a shadow-muted player says only they see. What anybody else says
/// everybody sees, but no one who joins later.
pub proof fn law_muted_players_are_not_heard(
    s: ServerView,
    i: usize,
    line: Seq<char>,
    j: usize,
)
    requires
        s.player(i) is Some,
    ensures
        ({
            let t = s.after_chat(i, line);
            let said = MessageView::Chat { player_index: Some(i), message: line };
            let status = s.player(i)->0.is_muted;
            &&& s.is_muted || status == HQMMuteStatus::Muted ==> t == s
            &&& !s.is_muted && status == HQMMuteStatus::ShadowMuted ==> t.game == s.game
                && t.player(j) == (if j == i {
                told_slot(s.player(j), said)
            } else {
                s.player(j)
            })
            &&& !s.is_muted && status == HQMMuteStatus::NotMuted ==> t.player(j) == told_slot(
                s.player(j),
                said,
            )
            &&& t.game.persistent_messages == s.game.persistent_messages
        }),
{
    reveal(ServerView::broadcast);
    reveal(ServerView::directed);
}

/// An update that a client sends changes only what the server holds of this
/// client.
pub proof fn law_updates_concern_the_sender_only(
    s: ServerView,
    i: usize,
    u: UpdateView,
    version: HQMClientVersion,
    now: u64,
    j: usize,
)
    requires
        s.player(i) is Some,
    ensures
        ({
            let t = s.after_update(i, u, version, now);
            &&& t == (ServerView { players: t.players, ..s })
            &&& j != i ==> t.player(j) == s.player(j)
            &&& t.player(i) matches Some(p) && p.messages == s.player(i)->0.messages
                && p.player_name == s.player(i)->0.player_name && p.addr == s.player(i)->0.addr
        }),
{
}

/// Updates carry the messages in order, without a gap: after a client has
/// received those of one update, the next one goes on where that one ended.
pub proof fn law_messages_are_sent_in_order(player: PlayerView)
    requires
        player.known_msgpos <= player.messages.len() <= usize::MAX,
    ensures
        ({
            let sent = pending_messages(player);
            let rest = player.messages.skip(player.known_msgpos as int);
            let next = PlayerView {
                known_msgpos: (player.known_msgpos + sent.len()) as usize,
                ..player
            };
            &&& sent.len() <= MAX_UPDATE_MESSAGES
            &&& rest.len() > 0 ==> sent.len() > 0
            &&& sent == rest.take(sent.len() as int)
            &&& sent + next.messages.skip(next.known_msgpos as int) == rest
        }),
{
    let sent = pending_messages(player);
    let rest = player.messages.skip(player.known_msgpos as int);
    let n = player.known_msgpos + sent.len();
    assert(sent =~= rest.take(sent.len() as int));
    assert(sent + player.messages.skip(n) =~= rest);
}

/// What the server answers to a command only the player who gave it gets to
/// see, whatever the command.
pub proof fn law_commands_are_answered_in_private(
    s: ServerView,
    command: Seq<char>,
    arg: Seq<char>,
    i: usize,
    j: usize,
)
    requires
        j != i,
    ensures
        s.after_command(command, arg, i) matches Some((t, _)) ==> t.player(j) == s.player(j)
            && t.game.replay_messages == s.game.replay_messages && t.game.persistent_messages
            == s.game.persistent_messages,
{
    reveal(answered);
    lemma_commands_answer(s, command, arg, i);
}

} // verus!
