//! What holds of games, of lists of players, and of what is remembered.
use crate::commands::{found, unique_match};
use crate::hqm_game::{object_packets, GameView, MessageView, TickView};
use crate::players::PlayerView;
use crate::protocol::{base_packets, MAX_STEPS_BACK};
use crate::search::{first_from, lemma_first_from};
use crate::server::{player_news, ServerView};
use crate::session::{with_ping, MAX_PINGS};
use crate::text::{before_null, is_white_space, lemma_trimmed, player_name_of};
use crate::tick::MAX_INACTIVITY;
use crate::updates::replay_bits;
use vstd::prelude::*;
use vstd::utf8::decode_utf8;

verus! {

/// What the server remembers of step `n`.
pub open spec fn known_step(game: GameView, n: u32) -> Option<TickView> {
    let d = game.packet - n;
    if 0 <= d < game.saved_ticks.len() {
        Some(game.saved_ticks[d])
    } else {
        None
    }
}

/// A new step is remembered under its number. Of the steps before, as many as
/// there is room for are remembered as they were; the others are forgotten.
pub proof fn law_steps_are_remembered(s: ServerView, now: u64, capacity: usize, n: u32)
    requires
        n <= s.game.packet < u32::MAX,
    ensures
        ({
            let t = s.stepped(now, capacity);
            &&& t.game.packet == s.game.packet + 1
            &&& known_step(t.game, t.game.packet) == Some(
                TickView { packets: object_packets(s.game.world.objects), time: now },
            )
            &&& known_step(t.game, n) == (if t.game.packet - n < capacity {
                known_step(s.game, n)
            } else {
                None
            })
        }),
{
    reveal(ServerView::stepped);
}

/// Objects are coded against a step that the client knows, that lies before the
/// latest one but not too far, and that the server remembers.
pub proof fn law_objects_are_coded_against_a_known_step(game: GameView, known_packet: u32)
    ensures
        base_packets(game.packet, game.saved_ticks, known_packet) matches Some(packets) ==> {
            &&& known_packet < game.packet < known_packet + MAX_STEPS_BACK
            &&& known_step(game, known_packet) matches Some(tick) && tick.packets == packets
        },
{
}

/// The news of some players.
pub open spec fn roster_news(list: Seq<(usize, Seq<char>)>) -> Seq<MessageView> {
    list.map_values(|e: (usize, Seq<char>)| player_news(e.0, e.1, None, true))
}

proof fn lemma_announce_all(s: ServerView, list: Seq<(usize, Seq<char>)>, i: usize)
    ensures
        ({
            let t = s.announce_all(list);
            &&& t.players.len() == s.players.len()
            &&& t.game_id == s.game_id
            &&& t.player(i) == (match s.player(i) {
                Some(p) => Some(PlayerView { messages: p.messages + roster_news(list), ..p }),
                None => None,
            })
            &&& t.game.persistent_messages == s.game.persistent_messages + roster_news(list)
            &&& t.game.replay_messages == s.game.replay_messages + roster_news(list)
        }),
    decreases list.len(),
{
    reveal(ServerView::broadcast);
    let news = roster_news(list);
    if list.len() == 0 {
        assert(s.game.persistent_messages + news =~= s.game.persistent_messages);
        assert(s.game.replay_messages + news =~= s.game.replay_messages);
        if let Some(p) = s.player(i) {
            assert(p.messages + news =~= p.messages);
        }
    } else {
        let init = list.drop_last();
        lemma_announce_all(s, init, i);
        let last = player_news(list.last().0, list.last().1, None, true);
        let before = roster_news(init);
        assert(news =~= before.push(last));
        assert((s.game.persistent_messages + before).push(last) =~= s.game.persistent_messages
            + news);
        assert((s.game.replay_messages + before).push(last) =~= s.game.replay_messages + news);
        if let Some(p) = s.player(i) {
            assert((p.messages + before).push(last) =~= p.messages + news);
        }
    }
}

/// At the start of a game everybody is told the same, and nothing but who is in
/// the server. Who joins later is told so too. The number of the game is new.
pub proof fn law_new_game_starts_everybody_equal(s: ServerView, game: GameView, i: usize)
    requires
        s.game_id < u32::MAX,
    ensures
        ({
            let t = s.after_new_game(game);
            let news = roster_news(s.roster());
            &&& t.game_id == s.game_id + 1
            &&& t.player(i) == (match s.player(i) {
                Some(p) => Some(
                    PlayerView {
                        known_msgpos: 0,
                        known_packet: u32::MAX,
                        messages: news,
                        ..p
                    },
                ),
                None => None,
            })
            &&& t.game.persistent_messages == game.persistent_messages + news
            &&& t.game.replay_messages == game.replay_messages + news
        }),
{
    reveal(ServerView::reset);
    reveal(ServerView::after_new_game);
    let news = roster_news(s.roster());
    lemma_announce_all(s.reset(game), s.roster(), i);
    assert(Seq::<MessageView>::empty() + news =~= news);
}

/// A list of players holds those whose slot qualifies, each once, in the order
/// of the slots, and no others.
pub proof fn law_lists_are_complete(
    slots: Seq<Option<PlayerView>>,
    hit: spec_fn(int) -> bool,
    from: int,
    to: int,
)
    requires
        0 <= from <= to <= slots.len() <= usize::MAX,
    ensures
        ({
            let list = found(slots, hit, from, to);
            &&& forall|a: int|
                0 <= a < list.len() ==> {
                    let (i, name) = #[trigger] list[a];
                    from <= i < to && hit(i as int) && slots[i as int] is Some
                        && slots[i as int]->0.player_name == name
                }
            &&& forall|a: int, b: int|
                0 <= a < b < list.len() ==> (#[trigger] list[a]).0 < (#[trigger] list[b]).0
            &&& forall|i: int|
                from <= i < to && (#[trigger] slots[i]) is Some && hit(i) ==> list.contains(
                    (i as usize, slots[i]->0.player_name),
                )
        }),
    decreases to - from,
{
    let list = found(slots, hit, from, to);
    if from < to {
        law_lists_are_complete(slots, hit, from, to - 1);
        let before = found(slots, hit, from, to - 1);
        assert forall|i: int|
            from <= i < to && (#[trigger] slots[i]) is Some && hit(i) implies list.contains(
            (i as usize, slots[i]->0.player_name),
        ) by {
            let e = (i as usize, slots[i]->0.player_name);
            if i < to - 1 {
                assert(before.contains(e));
                let a = choose|a: int| 0 <= a < before.len() && before[a] == e;
                assert(list[a] == e);
            } else {
                assert(list[list.len() - 1] == e);
            }
        }
    }
}

/// Those who time out in a step are those who have not been heard of for more
/// than the steps that they are allowed.
pub proof fn law_silent_players_time_out(s: ServerView, i: usize)
    requires
        s.players.len() <= usize::MAX,
        s.player(i) matches Some(p) && p.inactivity < u32::MAX,
    ensures
        s.aged().timed_out().contains((i, s.player(i)->0.player_name)) <==> s.player(
            i,
        )->0.inactivity >= MAX_INACTIVITY,
{
    reveal(ServerView::aged);
    reveal(ServerView::timed_out);
    let t = s.aged();
    let hit = |i: int| t.players[i]->0.inactivity > MAX_INACTIVITY;
    law_lists_are_complete(t.players, hit, 0, t.players.len() as int);
    let list = t.timed_out();
    let e = (i, s.player(i)->0.player_name);
    assert(t.players[i as int] is Some);
    if list.contains(e) {
        let a = choose|a: int| 0 <= a < list.len() && list[a] == e;
        assert(hit(list[a].0 as int));
    }
}

/// A name matches exactly if one player has it, and no other.
pub proof fn law_unique_match(slots: Seq<Option<PlayerView>>, name: Seq<char>, i: usize)
    requires
        i < slots.len() <= usize::MAX,
    ensures
        unique_match(slots, name) == Some(i) <==> {
            &&& slots[i as int] is Some && slots[i as int]->0.player_name == name
            &&& forall|j: int|
                0 <= j < slots.len() && j != i && (#[trigger] slots[j]) is Some
                    ==> slots[j]->0.player_name != name
        },
{
    let named = |p: Option<PlayerView>| p is Some && p->0.player_name == name;
    lemma_first_from(slots, named, 0);
    if let Some(k) = first_from(slots, named, 0) {
        lemma_first_from(slots, named, k + 1);
        assert(named(slots[k as int]));
    }
    assert(named(slots[i as int]) <==> slots[i as int] is Some
        && slots[i as int]->0.player_name == name);
}

/// The round-trip times are kept with the latest first, and not without end.
pub proof fn law_pings_are_bounded(pings: Seq<u64>, sample: Option<u64>)
    requires
        pings.len() <= MAX_PINGS,
    ensures
        with_ping(pings, sample).len() <= MAX_PINGS,
        sample matches Some(d) ==> with_ping(pings, sample)[0] == d,
{
}

/// A replay only grows. After a step has been added, all messages are in it.
pub proof fn law_replay_grows(game: GameView, buf: Seq<u8>)
    requires
        game.replay_messages.len() <= usize::MAX,
        replay_bits(game).len() < 8 * buf.len(),
    ensures
        ({
            let after = game.replayed(buf);
            &&& after.replay_msg_pos == after.replay_messages.len()
            &&& after.replay_last_packet == game.packet
            &&& after.replay_data.len() == game.replay_data.len() + replay_bits(game).len() / 8 + 1
            &&& after.replay_data.take(game.replay_data.len() as int) == game.replay_data
        }),
{
    let after = game.replayed(buf);
    assert(after.replay_data.take(game.replay_data.len() as int) =~= game.replay_data);
}

/// Everybody has a name, and no name has white space at its ends.
pub proof fn law_names_are_not_empty(bytes: Seq<u8>)
    ensures
        player_name_of(bytes) matches Some(name) ==> name.len() > 0 && !is_white_space(name[0])
            && !is_white_space(name.last()),
{
    reveal_strlit("Noname");
    lemma_trimmed(decode_utf8(before_null(bytes)));
}

} // verus!
