//! What happens in a simulation step, and when one game follows another.
use crate::behaviour::HQMServerBehaviour;
use crate::commands::found;
use crate::game_laws::law_lists_are_complete;
use crate::hqm_game::{
    GameView, HQMGameObject, HQMSkater, HQMStartTime, MessageView, WorldView,
};
use crate::ice_laws::law_inputs_are_handed_out;
use crate::join_laws::{law_everybody_hears, law_who_leaves_is_gone};
use crate::players::{count_players, PlayerView};
use crate::server::{player_news, ServerView};
use crate::terms::{
    all_news, announced_all, inputs_handed_out, leaves, lists_first, server_line,
    stands_at, step_later, step_saved,
};
use crate::text::{decimal, digit_char, padded};
use crate::tick::{
    le_bytes, start_text, step_ended, tick_started, timeout_done, timeouts_done, PhaseView,
    MAX_INACTIVITY,
};
use vstd::prelude::*;

verus! {

proof fn lemma_announced_none(s: ServerView, kept: bool)
    ensures
        announced_all(s, s, Seq::empty(), kept),
{
    reveal(announced_all);
    let none = Seq::<MessageView>::empty();
    assert(s.game.replay_messages + none =~= s.game.replay_messages);
    assert(s.game.persistent_messages + none =~= s.game.persistent_messages);
    assert forall|j: int|
        #![trigger s.players[j]]
        0 <= j < s.players.len() && s.players[j] is Some implies s.players[j]->0.messages + none
        == s.players[j]->0.messages by {
        assert(s.players[j]->0.messages + none =~= s.players[j]->0.messages);
    }
}

proof fn lemma_announced_more(
    s: ServerView,
    t: ServerView,
    messages: Seq<MessageView>,
    message: MessageView,
    kept: bool,
)
    requires
        announced_all(s, t, messages, kept),
    ensures
        announced_all(s, t.broadcast(message, kept), messages.push(message), kept),
{
    reveal(announced_all);
    law_everybody_hears(t, message, kept);
    let u = t.broadcast(message, kept);
    let more = messages.push(message);
    assert((s.game.replay_messages + messages).push(message) =~= s.game.replay_messages + more);
    assert((s.game.persistent_messages + messages).push(message) =~= s.game.persistent_messages
        + more);
    assert forall|j: int|
        #![trigger s.players[j]]
        #![trigger u.players[j]]
        0 <= j < s.players.len() implies match (s.players[j], u.players[j]) {
        (Some(p), Some(q)) => q == (PlayerView { messages: p.messages + more, ..p }),
        (None, None) => true,
        _ => false,
    } by {
        if let Some(p) = s.players[j] {
            assert(t.players[j] is Some);
            assert((p.messages + messages).push(message) =~= p.messages + more);
        } else {
            assert(t.players[j] is None);
        }
    }
}

/// The lines that tell who has timed out.
pub open spec fn timeout_lines(list: Seq<(usize, Seq<char>)>) -> Seq<MessageView> {
    Seq::new(list.len(), |a: int| server_line(list[a].1 + " timed out"@))
}

/// Everybody is told of each player who has timed out.
pub proof fn law_timeouts_are_told(s: ServerView, list: Seq<(usize, Seq<char>)>)
    ensures
        announced_all(s, s.tell_timed_out(list), timeout_lines(list), false),
    decreases list.len(),
{
    if list.len() == 0 {
        lemma_announced_none(s, false);
        assert(timeout_lines(list) =~= Seq::empty());
    } else {
        let init = list.drop_last();
        law_timeouts_are_told(s, init);
        let line = server_line(list.last().1 + " timed out"@);
        lemma_announced_more(s, s.tell_timed_out(init), timeout_lines(init), line, false);
        assert(timeout_lines(init).push(line) =~= timeout_lines(list));
    }
}

/// Everybody is told of each player of a list that they are in the server.
proof fn lemma_all_news(s: ServerView, list: Seq<(usize, Seq<char>)>)
    ensures
        announced_all(s, s.announce_all(list), all_news(list), true),
    decreases list.len(),
{
    if list.len() == 0 {
        lemma_announced_none(s, true);
        assert(all_news(list) =~= Seq::empty());
    } else {
        let init = list.drop_last();
        lemma_all_news(s, init);
        let news = player_news(list.last().0, list.last().1, None, true);
        lemma_announced_more(s, s.announce_all(init), all_news(init), news, true);
        assert(all_news(init).push(news) =~= all_news(list));
    }
}

proof fn lemma_lists_all(slots: Seq<Option<PlayerView>>, hit: spec_fn(int) -> bool)
    requires
        slots.len() <= usize::MAX,
    ensures
        lists_first(slots, hit, slots.len() + 1, found(slots, hit, 0, slots.len() as int)),
        found(slots, hit, 0, slots.len() as int).len() <= slots.len(),
{
    let list = found(slots, hit, 0, slots.len() as int);
    law_lists_are_complete(slots, hit, 0, slots.len() as int);
    lemma_found_len(slots, hit, slots.len() as int);
    assert forall|i: int|
        0 <= i < slots.len() && (#[trigger] slots[i]) is Some && hit(i) implies exists|a: int|
        0 <= a < list.len() && (#[trigger] list[a]).0 == i by {
        let e = (i as usize, slots[i]->0.player_name);
        assert(list.contains(e));
        let a = choose|a: int| 0 <= a < list.len() && list[a] == e;
        assert(list[a].0 == i);
    }
}

proof fn lemma_found_len(slots: Seq<Option<PlayerView>>, hit: spec_fn(int) -> bool, to: int)
    requires
        0 <= to <= slots.len(),
    ensures
        found(slots, hit, 0, to).len() <= to,
    decreases to,
{
    if to > 0 {
        lemma_found_len(slots, hit, to - 1);
    }
}

/// With a step everybody has been silent for one step more.
pub proof fn law_everybody_grows_older(s: ServerView)
    requires
        forall|i: int|
            0 <= i < s.players.len() && (#[trigger] s.players[i]) is Some
                ==> s.players[i]->0.inactivity < u32::MAX,
    ensures
        step_later(s, s.aged()),
{
    reveal(step_later);
    reveal(ServerView::aged);
}

/// The players time out who have not been heard of for 500 steps before this one:
/// all of them, in the order of their slots, and nobody else.
pub proof fn law_the_silent_time_out(s: ServerView)
    requires
        s.players.len() <= usize::MAX,
        forall|i: int|
            0 <= i < s.players.len() && (#[trigger] s.players[i]) is Some
                ==> s.players[i]->0.inactivity < u32::MAX,
    ensures
        lists_first(
            s.players,
            |k: int| s.players[k]->0.inactivity >= 500,
            s.players.len() + 1,
            s.aged().timed_out(),
        ),
{
    reveal(ServerView::aged);
    reveal(ServerView::timed_out);
    let t = s.aged();
    let list = t.timed_out();
    let hit = |i: int| t.players[i]->0.inactivity > MAX_INACTIVITY;
    let wanted = |k: int| s.players[k]->0.inactivity >= 500;
    lemma_lists_all(t.players, hit);
    assert forall|a: int| 0 <= a < list.len() implies {
        let (i, name) = #[trigger] list[a];
        &&& i < s.players.len()
        &&& wanted(i as int)
        &&& s.players[i as int] matches Some(p) && p.player_name == name
    } by {
        let i = list[a].0 as int;
        assert(t.players[i] is Some);
        assert(hit(i));
    }
    assert forall|i: int|
        0 <= i < s.players.len() && (#[trigger] s.players[i]) is Some && wanted(i) implies exists|
        a: int,
    |
        0 <= a < list.len() && (#[trigger] list[a]).0 == i by {
        assert(t.players[i] is Some);
        assert(hit(i));
    }
}

/// The rules of play hear that player `i` is about to leave, and then the player,
/// if still there, leaves.
#[verifier::opaque]
pub open spec fn leaves_after_notice<B: HQMServerBehaviour>(
    b0: B,
    s0: ServerView,
    i: usize,
    b1: B,
    s1: ServerView,
) -> bool {
    exists|u: ServerView| #[trigger]
        B::player_exits(b0, s0, i, b1, u) && (u.numbered() ==> if i < u.players.len()
            && u.players[i as int] is Some {
            leaves(u, s1, i)
        } else {
            s1 == u
        })
}

/// Some players leave one after the other: `rules` and `servers` hold what there
/// is before the first, after the first, and so on.
pub open spec fn leave_in_turn<B: HQMServerBehaviour>(
    rules: Seq<B>,
    servers: Seq<ServerView>,
    list: Seq<(usize, Seq<char>)>,
) -> bool {
    &&& rules.len() == list.len() + 1
    &&& servers.len() == list.len() + 1
    &&& forall|a: int|
        #![trigger list[a]]
        0 <= a < list.len() ==> leaves_after_notice(
            rules[a],
            servers[a],
            list[a].0,
            rules[a + 1],
            servers[a + 1],
        )
}

proof fn lemma_leaves_after_notice<B: HQMServerBehaviour>(
    b0: B,
    s0: ServerView,
    i: usize,
    b1: B,
    s1: ServerView,
)
    requires
        timeout_done(b0, s0, i, b1, s1),
    ensures
        leaves_after_notice(b0, s0, i, b1, s1),
{
    reveal(leaves_after_notice);
    let u = choose|u: ServerView| #[trigger]
        B::player_exits(b0, s0, i, b1, u) && s1 == u.without_player(i);
    if u.numbered() {
        if i < u.players.len() && u.players[i as int] is Some {
            law_who_leaves_is_gone(u, i);
        } else {
            assert(s1 == u) by {
                reveal(ServerView::without_player);
            }
        }
    }
}

/// Each of those who have timed out leaves, and no other player.
pub proof fn law_all_timeouts_leave<B: HQMServerBehaviour>(
    b0: B,
    s0: ServerView,
    list: Seq<(usize, Seq<char>)>,
    b1: B,
    s1: ServerView,
) -> (r: (Seq<B>, Seq<ServerView>))
    requires
        timeouts_done(b0, s0, list, b1, s1),
    ensures
        leave_in_turn(r.0, r.1, list),
        r.0[0] == b0,
        r.1[0] == s0,
        r.0.last() == b1,
        r.1.last() == s1,
    decreases list.len(),
{
    if list.len() == 0 {
        (seq![b0], seq![s0])
    } else {
        let init = list.drop_last();
        let i = list.last().0;
        let (b, s) = choose|b: B, s: ServerView|
            timeouts_done(b0, s0, init, b, s) && #[trigger] timeout_done(b, s, i, b1, s1);
        let (rules, servers) = law_all_timeouts_leave(b0, s0, init, b, s);
        lemma_leaves_after_notice(b, s, i, b1, s1);
        let more_rules = rules.push(b1);
        let more_servers = servers.push(s1);
        assert forall|a: int|
            #![trigger list[a]]
            0 <= a < list.len() implies leaves_after_notice(
            more_rules[a],
            more_servers[a],
            list[a].0,
            more_rules[a + 1],
            more_servers[a + 1],
        ) by {
            if a < init.len() {
                assert(init[a] == list[a]);
            }
        }
        (more_rules, more_servers)
    }
}

/// What a step with players in the server begins with: everybody has been silent
/// for one step more; who has timed out leaves, one after the other, and then
/// everybody is told; the rules of play have their say; and the skaters are handed
/// the input of their players.
pub open spec fn step_prepared<B: HQMServerBehaviour>(
    b0: B,
    s0: ServerView,
    b1: B,
    s1: ServerView,
    list: Seq<(usize, Seq<char>)>,
    rules: Seq<B>,
    servers: Seq<ServerView>,
    told: ServerView,
    begun: ServerView,
) -> bool {
    &&& leave_in_turn(rules, servers, list)
    &&& rules[0] == b0
    &&& step_later(s0, servers[0])
    &&& announced_all(servers.last(), told, timeout_lines(list), false)
    &&& B::tick_begins(rules.last(), told, b1, begun)
    &&& begun.numbered() ==> inputs_handed_out(begun, s1)
}

/// If anybody is in the server, a step begins. The silent leave, and they only.
pub proof fn law_step_begins<B: HQMServerBehaviour>(
    b0: B,
    s0: ServerView,
    b1: B,
    s1: ServerView,
    phase: PhaseView,
)
    requires
        s0.players.len() <= usize::MAX,
        forall|i: int|
            0 <= i < s0.players.len() && (#[trigger] s0.players[i]) is Some
                ==> s0.players[i]->0.inactivity < u32::MAX,
        exists|i: int| 0 <= i < s0.players.len() && (#[trigger] s0.players[i]) is Some,
        tick_started(b0, s0, b1, s1, phase),
    ensures
        phase is Simulate,
        lists_first(
            s0.players,
            |k: int| s0.players[k]->0.inactivity >= 500,
            s0.players.len() + 1,
            phase->Simulate_0,
        ),
        exists|rules: Seq<B>, servers: Seq<ServerView>, told: ServerView, begun: ServerView|
            #[trigger]
            step_prepared(b0, s0, b1, s1, phase->Simulate_0, rules, servers, told, begun),
{
    let k = choose|i: int| 0 <= i < s0.players.len() && (#[trigger] s0.players[i]) is Some;
    lemma_somebody(s0.players, k);
    let list = s0.aged().timed_out();
    law_the_silent_time_out(s0);
    law_everybody_grows_older(s0);
    let (b, s, t) = choose|b: B, s: ServerView, t: ServerView|
        #![trigger timeouts_done(b0, s0.aged(), list, b, s), B::tick_begins(b, s.tell_timed_out(list), b1, t)]
        timeouts_done(b0, s0.aged(), list, b, s) && B::tick_begins(
            b,
            s.tell_timed_out(list),
            b1,
            t,
        ) && s1 == t.with_inputs();
    let (rules, servers) = law_all_timeouts_leave(b0, s0.aged(), list, b, s);
    let told = s.tell_timed_out(list);
    law_timeouts_are_told(s, list);
    if t.numbered() {
        lemma_inputs_handed_out(t);
    }
    assert(step_prepared(b0, s0, b1, s1, list, rules, servers, told, t));
}

proof fn lemma_inputs_handed_out(s: ServerView)
    requires
        s.numbered(),
    ensures
        inputs_handed_out(s, s.with_inputs()),
{
    reveal(inputs_handed_out);
    let t = s.with_inputs();
    let before = s.game.world.objects;
    assert(t == (ServerView {
        game: GameView {
            world: WorldView {
                objects: t.game.world.objects,
                ..s.game.world
            },
            ..s.game
        },
        ..s
    }) && t.game.world.objects.len() == before.len()) by {
        reveal(ServerView::with_inputs);
    }
    assert forall|k: int, i: usize|
        #![trigger stands_at(before, i, k)]
        stands_at(before, i, k) && i < s.players.len() && s.players[i as int] is Some implies
        t.game.world.objects[k] == HQMGameObject::Player(
        HQMSkater {
            input: s.players[i as int]->0.input,
            ..before[k]->Player_0
        },
    ) by {
        law_inputs_are_handed_out(s, k);
    }
    assert forall|k: int|
        0 <= k < before.len() && (forall|i: usize| #[trigger]
            stands_at(before, i, k) ==> i >= s.players.len() || s.players[i as int] is None)
        implies #[trigger] t.game.world.objects[k] == before[k] by {
        law_inputs_are_handed_out(s, k);
    }
}

proof fn lemma_somebody(slots: Seq<Option<PlayerView>>, i: int)
    requires
        0 <= i < slots.len(),
        slots[i] is Some,
    ensures
        count_players(slots) > 0,
    decreases slots.len(),
{
    if i < slots.len() - 1 {
        lemma_somebody(slots.drop_last(), i);
    }
}

proof fn lemma_nobody(slots: Seq<Option<PlayerView>>)
    requires
        forall|i: int| 0 <= i < slots.len() ==> (#[trigger] slots[i]) is None,
    ensures
        count_players(slots) == 0,
    decreases slots.len(),
{
    if slots.len() > 0 {
        lemma_nobody(slots.drop_last());
    }
}

proof fn lemma_found_nobody(slots: Seq<Option<PlayerView>>, hit: spec_fn(int) -> bool, to: int)
    requires
        0 <= to <= slots.len(),
        forall|i: int| 0 <= i < slots.len() ==> (#[trigger] slots[i]) is None,
    ensures
        found(slots, hit, 0, to).len() == 0,
    decreases to,
{
    if to > 0 {
        lemma_found_nobody(slots, hit, to - 1);
    }
}

/// When nobody is left of those who played, the game is over: the rules of play
/// set up the next one as it is, its number is one higher, and anybody may join.
/// If nobody has played, nothing happens.
pub proof fn law_empty_server_starts_anew<B: HQMServerBehaviour>(
    b0: B,
    s0: ServerView,
    b1: B,
    s1: ServerView,
    phase: PhaseView,
)
    requires
        s0.game_id < u32::MAX,
        forall|i: int| 0 <= i < s0.players.len() ==> (#[trigger] s0.players[i]) is None,
        tick_started(b0, s0, b1, s1, phase),
    ensures
        !s0.game.active ==> phase is Idle && b1 == b0 && s1 == s0,
        s0.game.active ==> {
            &&& phase == PhaseView::Abandoned(s0.replay())
            &&& B::game_created(b0, b1, s1.game)
            &&& s1 == (ServerView {
                game: s1.game,
                game_id: (s0.game_id + 1) as u32,
                allow_join: true,
                ..s0
            })
        },
{
    lemma_nobody(s0.players);
    if s0.game.active {
        let game = choose|game: GameView| #[trigger]
            B::game_created(b0, b1, game) && s1 == (ServerView {
                allow_join: true,
                ..s0.after_new_game(game)
            }) && phase == PhaseView::Abandoned(s0.replay());
        reveal(ServerView::after_new_game);
        reveal(ServerView::reset);
        reveal(ServerView::roster);
        lemma_found_nobody(s0.players, |i: int| true, s0.players.len() as int);
        assert(s0.reset(game).players =~= s0.players);
    }
}

/// A game has taken the place of the one before, under the next number, and the
/// players have forgotten what was said before.
pub open spec fn restarted(s: ServerView, game: GameView, t: ServerView) -> bool {
    &&& t == (ServerView { players: t.players, game, game_id: (s.game_id + 1) as u32, ..s })
    &&& t.players.len() == s.players.len()
    &&& forall|j: int|
        #![trigger s.players[j]]
        #![trigger t.players[j]]
        0 <= j < s.players.len() ==> match (s.players[j], t.players[j]) {
            (Some(p), Some(q)) => q == (PlayerView {
                known_msgpos: 0,
                known_packet: u32::MAX,
                messages: Seq::empty(),
                ..p
            }),
            (None, None) => true,
            _ => false,
        }
}

/// A new game takes the place of the one before, under the next number. Every
/// player forgets what was said before, and is told who is in the server; who
/// joins later is told so too. Nothing else about the players changes.
pub proof fn law_new_game_starts(s: ServerView, game: GameView)
    requires
        s.players.len() <= usize::MAX,
        s.game_id < u32::MAX,
    ensures
        exists|t: ServerView, list: Seq<(usize, Seq<char>)>|
            {
                &&& #[trigger] restarted(s, game, t)
                &&& lists_first(s.players, |k: int| true, s.players.len() + 1, list)
                &&& #[trigger] announced_all(t, s.after_new_game(game), all_news(list), true)
            },
{
    reveal(ServerView::after_new_game);
    reveal(ServerView::roster);
    let list = s.roster();
    lemma_lists_all(s.players, |i: int| true);
    lemma_all_news(s.reset(game), list);
    assert(restarted(s, game, s.reset(game))) by {
        reveal(ServerView::reset);
    }
}

/// After the objects have been moved the rules of play have their say; then the
/// step is counted and remembered.
pub proof fn law_step_ends<B: HQMServerBehaviour>(
    b0: B,
    s0: ServerView,
    events: Seq<B::Event>,
    now: u64,
    b1: B,
    s1: ServerView,
)
    requires
        step_ended(b0, s0, events, now, b1, s1),
    ensures
        exists|t: ServerView, capacity: usize|
            #![trigger B::tick_ends(b0, s0, events, b1, t), step_saved(t, s1, now, capacity)]
            B::tick_ends(b0, s0, events, b1, t) && t.game.saved_ticks.len() <= capacity
                && step_saved(t, s1, now, capacity),
{
    let (t, capacity) = choose|t: ServerView, capacity: usize|
        #![trigger B::tick_ends(b0, s0, events, b1, t), t.stepped(now, capacity)]
        B::tick_ends(b0, s0, events, b1, t) && t.game.saved_ticks.len() <= capacity && s1
            == t.stepped(now, capacity);
    law_step_is_saved(t, now, capacity);
    assert(step_saved(t, s1, now, capacity));
}

/// A step is saved with the objects as they are sent.
pub proof fn law_step_is_saved(s: ServerView, now: u64, capacity: usize)
    ensures
        step_saved(s, s.stepped(now, capacity), now, capacity),
{
    reveal(step_saved);
    reveal(ServerView::stepped);
}

/// A game is saved exactly if replays are to be kept and it came to a period. The
/// file starts with four zero bytes and the length of the replay in four bytes,
/// the lowest first; then comes the whole replay.
pub proof fn law_replay_is_saved(s: ServerView)
    ensures
        s.replay() is Some <==> s.config.replays_enabled && s.game.period != 0,
        s.replay() matches Some(file) ==> {
            let data = s.game.replay_data;
            let c = file.contents;
            &&& file.file_name == s.config.server_name + "."@ + start_text(s.game.start_time)
                + ".hrp"@
            &&& c.len() == 8 + data.len()
            &&& c[0] == 0 && c[1] == 0 && c[2] == 0 && c[3] == 0
            &&& c[4] + 256 * c[5] + 65536 * c[6] + 16777216 * c[7] == data.len() as u32
            &&& forall|k: int| 0 <= k < data.len() ==> #[trigger] c[8 + k] == data[k]
        },
{
    let n = s.game.replay_data.len() as u32;
    let b = le_bytes(n);
    assert(n / 65536 % 256 + 256 * (n / 16777216) == n / 65536);
    assert(n / 256 % 256 + 256 * (n / 65536) == n / 256);
    assert(b[0] + 256 * b[1] + 65536 * b[2] + 16777216 * b[3] == n);
}

/// The digit `d` of a number, where digit 0 is the last.
pub open spec fn digit(n: nat, d: nat) -> char {
    let t = if d == 0 {
        n
    } else if d == 1 {
        n / 10
    } else if d == 2 {
        n / 100
    } else if d == 3 {
        n / 1000
    } else {
        n / 10000
    };
    digit_char(t % 10)
}

proof fn lemma_two_digits(n: nat)
    requires
        n < 100,
    ensures
        padded(n, 2) =~= seq![digit(n, 1), digit(n, 0)],
{
    reveal_with_fuel(decimal, 3);
}

proof fn lemma_four_digits(n: nat)
    requires
        n < 10000,
    ensures
        padded(n, 4) =~= seq![digit(n, 3), digit(n, 2), digit(n, 1), digit(n, 0)],
{
    reveal_with_fuel(decimal, 5);
    assert(n / 10 / 10 == n / 100);
    assert(n / 10 / 10 / 10 == n / 1000);
}

proof fn lemma_five_digits(n: nat)
    requires
        10000 <= n < 100000,
    ensures
        padded(n, 4) =~= seq![digit(n, 4), digit(n, 3), digit(n, 2), digit(n, 1), digit(n, 0)],
{
    reveal_with_fuel(decimal, 6);
    assert(n / 10 / 10 == n / 100);
    assert(n / 10 / 10 / 10 == n / 1000);
    assert(n / 10 / 10 / 10 / 10 == n / 10000);
}

/// The year of the start of a game is written with four digits, or with a plus sign
/// and five.
pub open spec fn year_text(year: nat) -> Seq<char> {
    if year < 10000 {
        seq![digit(year, 3), digit(year, 2), digit(year, 1), digit(year, 0)]
    } else {
        seq![
            '+',
            digit(year, 4),
            digit(year, 3),
            digit(year, 2),
            digit(year, 1),
            digit(year, 0),
        ]
    }
}

/// Two digits of a text, from position `k` on, are those of a number.
pub open spec fn two_digits_at(text: Seq<char>, k: int, n: nat) -> bool {
    text[k] == digit(n, 1) && text[k + 1] == digit(n, 0)
}

/// The start of a game is written as a date and a time, with two digits for each of
/// month, day, hour, minute and second.
pub proof fn law_start_is_written(start: HQMStartTime)
    requires
        start.month < 100,
        start.day < 100,
        start.hour < 100,
        start.minute < 100,
        start.second < 100,
    ensures
        ({
            let text = start_text(start);
            let year = year_text(start.year as nat);
            let k = year.len() as int;
            &&& text.len() == k + 13
            &&& text.take(k) == year
            &&& text[k] == '-'
            &&& two_digits_at(text, k + 1, start.month as nat)
            &&& text[k + 3] == '-'
            &&& two_digits_at(text, k + 4, start.day as nat)
            &&& text[k + 6] == 'T'
            &&& two_digits_at(text, k + 7, start.hour as nat)
            &&& two_digits_at(text, k + 9, start.minute as nat)
            &&& two_digits_at(text, k + 11, start.second as nat)
        }),
{
    let y = start.year as nat;
    reveal_strlit("+");
    if y < 10000 {
        lemma_four_digits(y);
    } else {
        lemma_five_digits(y);
        assert("+"@ + padded(y, 4) =~= year_text(y));
    }
    lemma_two_digits(start.month as nat);
    lemma_two_digits(start.day as nat);
    lemma_two_digits(start.hour as nat);
    lemma_two_digits(start.minute as nat);
    lemma_two_digits(start.second as nat);
    reveal_strlit("-");
    reveal_strlit("T");
    lemma_after_the_year(
        year_text(y),
        padded(start.month as nat, 2),
        padded(start.day as nat, 2),
        padded(start.hour as nat, 2),
        padded(start.minute as nat, 2),
        padded(start.second as nat, 2),
    );
}

proof fn lemma_after_the_year(
    year: Seq<char>,
    month: Seq<char>,
    day: Seq<char>,
    hour: Seq<char>,
    minute: Seq<char>,
    second: Seq<char>,
)
    requires
        month.len() == 2,
        day.len() == 2,
        hour.len() == 2,
        minute.len() == 2,
        second.len() == 2,
    ensures
        ({
            let text = year + "-"@ + month + "-"@ + day + "T"@ + hour + minute + second;
            let k = year.len() as int;
            &&& text.len() == k + 13
            &&& text.take(k) == year
            &&& text[k] == '-' && text[k + 1] == month[0] && text[k + 2] == month[1]
            &&& text[k + 3] == '-' && text[k + 4] == day[0] && text[k + 5] == day[1]
            &&& text[k + 6] == 'T' && text[k + 7] == hour[0] && text[k + 8] == hour[1]
            &&& text[k + 9] == minute[0] && text[k + 10] == minute[1]
            &&& text[k + 11] == second[0] && text[k + 12] == second[1]
        }),
{
    reveal_strlit("-");
    reveal_strlit("T");
    let text = year + "-"@ + month + "-"@ + day + "T"@ + hour + minute + second;
    assert(text.take(year.len() as int) =~= year);
}

} // verus!
