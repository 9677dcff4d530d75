//! What the commands do that players give in the chat.
use crate::behaviour::HQMServerBehaviour;
use crate::commands::{
    admin_command_of, first_of_list, found, listed, lower_names, matches_in, search_matches,
    unique_match, AdminCommandView, RequestView,
};
use crate::game_laws::{law_lists_are_complete, law_unique_match};
use crate::hqm_game::{HQMSkaterHand, MessageView};
use crate::ice_laws::law_skater_is_found;
use crate::players::PlayerView;
use crate::search::lemma_first_in_range;
use crate::server::ServerView;
use crate::session::command_done;
use crate::terms::{
    list_lines, lists_first, name_has, only_one, search_lines, server_line, skates, stands_in,
    told_lines, told_one,
};
use crate::text::{index_of, list_line, lowercase, occurs_in};
use vstd::prelude::*;

verus! {

/// What is said to one player that player hears, and nobody else.
pub proof fn law_one_player_hears(
    s: ServerView,
    receiver: usize,
    sender: Option<usize>,
    message: Seq<char>,
)
    ensures
        told_one(
            s,
            s.directed(receiver, sender, message),
            receiver as int,
            MessageView::Chat { player_index: sender, message },
        ),
{
    reveal(ServerView::directed);
}

proof fn lemma_told_nothing(s: ServerView, i: int)
    ensures
        told_lines(s, s, i, Seq::empty()),
{
    reveal(told_lines);
    if 0 <= i < s.players.len() && s.players[i] is Some {
        let p = s.players[i]->0;
        assert(p.messages + Seq::new(0, |k: int| server_line(Seq::<Seq<char>>::empty()[k]))
            =~= p.messages);
    }
}

proof fn lemma_told_more(
    s: ServerView,
    t: ServerView,
    i: usize,
    lines: Seq<Seq<char>>,
    line: Seq<char>,
)
    requires
        told_lines(s, t, i as int, lines),
    ensures
        told_lines(s, t.tell(i, line), i as int, lines.push(line)),
{
    reveal(told_lines);
    law_one_player_hears(t, i, None, line);
    let u = t.tell(i, line);
    assert forall|j: int|
        #![trigger s.players[j]]
        #![trigger u.players[j]]
        0 <= j < s.players.len() && j != i implies u.players[j] == s.players[j] by {
        assert(t.players[j] == s.players[j]);
    }
    if i < s.players.len() && s.players[i as int] is Some {
        let p = s.players[i as int]->0;
        let more = lines.push(line);
        assert((p.messages + Seq::new(lines.len(), |k: int| server_line(lines[k]))).push(
            server_line(line),
        ) =~= p.messages + Seq::new(more.len(), |k: int| server_line(more[k])));
    }
}

proof fn lemma_told_list(
    s: ServerView,
    t: ServerView,
    i: usize,
    lines: Seq<Seq<char>>,
    list: Seq<(usize, Seq<char>)>,
)
    requires
        told_lines(s, t, i as int, lines),
    ensures
        told_lines(s, t.tell_list(i, list), i as int, lines + list_lines(list)),
    decreases list.len(),
{
    if list.len() == 0 {
        assert(lines + list_lines(list) =~= lines);
    } else {
        let init = list.drop_last();
        lemma_told_list(s, t, i, lines, init);
        let line = list_line(list.last().0, list.last().1);
        lemma_told_more(s, t.tell_list(i, init), i, lines + list_lines(init), line);
        assert((lines + list_lines(init)).push(line) =~= lines + list_lines(list));
    }
}

proof fn lemma_lists_first(slots: Seq<Option<PlayerView>>, hit: spec_fn(int) -> bool, from: int)
    requires
        0 <= from,
        slots.len() <= usize::MAX,
    ensures
        lists_first(
            slots,
            |i: int| from <= i && hit(i),
            5,
            first_of_list(found(slots, hit, from, slots.len() as int)),
        ),
{
    let all = found(slots, hit, from, slots.len() as int);
    let list = first_of_list(all);
    let wanted = |i: int| from <= i && hit(i);
    if from <= slots.len() {
        law_lists_are_complete(slots, hit, from, slots.len() as int);
    }
    assert forall|a: int| 0 <= a < list.len() implies list[a] == #[trigger] all[a] by {}
    assert forall|a: int| 0 <= a < list.len() implies {
        let (i, name) = #[trigger] list[a];
        &&& i < slots.len()
        &&& wanted(i as int)
        &&& slots[i as int] matches Some(p) && p.player_name == name
    } by {
        assert(list[a] == all[a]);
    }
    assert forall|a: int, b: int| 0 <= a < b < list.len() implies (#[trigger] list[a]).0 < (
    #[trigger] list[b]).0 by {
        assert(list[a] == all[a] && list[b] == all[b]);
    }
    assert forall|i: int|
        0 <= i < slots.len() && (#[trigger] slots[i]) is Some && wanted(i) implies {
        ||| exists|a: int| 0 <= a < list.len() && (#[trigger] list[a]).0 == i
        ||| list.len() == 5 && forall|a: int| 0 <= a < list.len() ==> (#[trigger] list[a]).0 < i
    } by {
        let e = (i as usize, slots[i]->0.player_name);
        assert(all.contains(e));
        let a = choose|a: int| 0 <= a < all.len() && all[a] == e;
        if a < list.len() {
            assert(list[a].0 == i);
        } else {
            assert(list.len() == 5);
            assert forall|b: int| 0 <= b < list.len() implies (#[trigger] list[b]).0 < i by {
                assert(list[b] == all[b]);
                assert(all[b].0 < all[a].0);
            }
        }
    }
}

/// A player who asks for the list is told the first five players from a slot on,
/// one line for each, and nobody else is told anything.
pub proof fn law_list_is_told(s: ServerView, i: usize, first: usize)
    requires
        s.players.len() <= usize::MAX,
    ensures
        exists|list: Seq<(usize, Seq<char>)>|
            lists_first(s.players, |k: int| first <= k, 5, list) && #[trigger] told_lines(
                s,
                s.after_list(i, first),
                i as int,
                list_lines(list),
            ),
{
    reveal(ServerView::after_list);
    let list = listed(s.players, first as int);
    let hit = |i: int| true;
    lemma_lists_first(s.players, hit, first as int);
    let a = |k: int| first as int <= k && hit(k);
    let b = |k: int| first <= k;
    assert(a =~= b);
    lemma_told_nothing(s, i as int);
    lemma_told_list(s, s, i, Seq::empty(), list);
    assert(Seq::empty() + list_lines(list) =~= list_lines(list));
}

proof fn lemma_occurs(part: Seq<char>, s: Seq<char>)
    ensures
        occurs_in(part, s) <==> exists|k: int| #[trigger] stands_in(s, part, k),
{
    if occurs_in(part, s) {
        let i = choose|i: int|
            0 <= i && i + part.len() <= s.len() && #[trigger] s.subrange(i, i + part.len()) == part;
        let sub = s.subrange(i, i + part.len());
        assert forall|j: int| 0 <= j < part.len() implies s[i + j] == #[trigger] part[j] by {
            assert(sub[j] == part[j]);
        }
        assert(stands_in(s, part, i));
    }
    if exists|k: int| #[trigger] stands_in(s, part, k) {
        let k = choose|k: int| #[trigger] stands_in(s, part, k);
        assert(s.subrange(k, k + part.len()) =~= part);
    }
}

/// Of the players for whose slot a text is given in which another occurs, the
/// first five are found.
pub proof fn law_matches_are_the_first(
    slots: Seq<Option<PlayerView>>,
    texts: Seq<Seq<char>>,
    query: Seq<char>,
)
    requires
        slots.len() <= usize::MAX,
    ensures
        lists_first(
            slots,
            |k: int| exists|at: int| #[trigger] stands_in(texts[k], query, at),
            5,
            matches_in(slots, texts, query),
        ),
{
    let hit = |i: int| occurs_in(query, texts[i]);
    lemma_lists_first(slots, hit, 0);
    let list = matches_in(slots, texts, query);
    assert(list == first_of_list(found(slots, hit, 0, slots.len() as int)));
    let a = |i: int| 0 <= i && hit(i);
    let wanted = |k: int| exists|at: int| #[trigger] stands_in(texts[k], query, at);
    assert forall|i: int| 0 <= i < slots.len() && (#[trigger] slots[i]) is Some implies a(i)
        == wanted(i) by {
        lemma_occurs(query, texts[i]);
    }
    assert forall|x: int| 0 <= x < list.len() implies wanted((#[trigger] list[x]).0 as int) by {
        assert(slots[list[x].0 as int] is Some);
    }
}

/// A search finds the first five players in whose name a text occurs, in upper or
/// lower case.
pub proof fn law_search_finds_the_first(slots: Seq<Option<PlayerView>>, text: Seq<char>)
    requires
        slots.len() <= usize::MAX,
    ensures
        lists_first(slots, |k: int| name_has(slots, text, k), 5, search_matches(slots, text)),
{
    lemma_search(slots, lower_names(slots), text);
}

proof fn lemma_search(slots: Seq<Option<PlayerView>>, lowered: Seq<Seq<char>>, text: Seq<char>)
    requires
        slots.len() <= usize::MAX,
        forall|i: int|
            0 <= i < slots.len() && (#[trigger] slots[i]) is Some ==> lowered[i] == lowercase(
                slots[i]->0.player_name,
            ),
    ensures
        lists_first(
            slots,
            |k: int| name_has(slots, text, k),
            5,
            matches_in(slots, lowered, lowercase(text)),
        ),
{
    law_matches_are_the_first(slots, lowered, lowercase(text));
    let list = matches_in(slots, lowered, lowercase(text));
    let a = |k: int| exists|at: int| #[trigger] stands_in(lowered[k], lowercase(text), at);
    let wanted = |k: int| name_has(slots, text, k);
    assert forall|i: int| 0 <= i < slots.len() && (#[trigger] slots[i]) is Some implies a(i)
        == wanted(i) by {}
    assert forall|x: int| 0 <= x < list.len() implies wanted((#[trigger] list[x]).0 as int) by {
        assert(slots[list[x].0 as int] is Some);
    }
}

/// A player who searches is told whom the search finds, one line for each, or that
/// it finds nobody.
pub proof fn law_search_is_told(s: ServerView, i: usize, text: Seq<char>)
    requires
        s.players.len() <= usize::MAX,
    ensures
        exists|list: Seq<(usize, Seq<char>)>|
            lists_first(s.players, |k: int| name_has(s.players, text, k), 5, list)
                && #[trigger] told_lines(
                s,
                s.after_search(i, text),
                i as int,
                search_lines(Seq::empty(), list),
            ),
{
    reveal(ServerView::after_search);
    let list = search_matches(s.players, text);
    law_search_finds_the_first(s.players, text);
    lemma_told_nothing(s, i as int);
    lemma_told_list(s, s, i, Seq::empty(), list);
    assert(Seq::empty() + list_lines(list) =~= list_lines(list));
    lemma_told_more(s, s, i, Seq::empty(), "No matches found"@);
    assert(Seq::empty().push("No matches found"@) =~= seq!["No matches found"@]);
    let lines = search_lines(Seq::empty(), list);
    assert(told_lines(s, s.after_search(i, text), i as int, lines));
}

/// A player who gives a name that does not stand for one player is told so, and
/// then whom a search finds.
pub proof fn law_ambiguity_is_told(s: ServerView, i: usize, text: Seq<char>, hint: Seq<char>)
    requires
        s.players.len() <= usize::MAX,
    ensures
        exists|list: Seq<(usize, Seq<char>)>|
            lists_first(s.players, |k: int| name_has(s.players, text, k), 5, list)
                && #[trigger] told_lines(
                s,
                s.after_ambiguous(i, text, hint),
                i as int,
                search_lines(seq![hint], list),
            ),
{
    reveal(ServerView::after_ambiguous);
    let list = search_matches(s.players, text);
    law_search_finds_the_first(s.players, text);
    lemma_told_nothing(s, i as int);
    lemma_told_more(s, s, i, Seq::empty(), "No matches found"@);
    assert(Seq::empty().push("No matches found"@) =~= seq!["No matches found"@]);
    lemma_told_more(s, s, i, Seq::empty(), hint);
    assert(Seq::empty().push(hint) =~= seq![hint]);
    lemma_told_list(s, s.tell(i, hint), i, seq![hint], list);
    let lines = search_lines(seq![hint], list);
    assert(told_lines(s, s.after_ambiguous(i, text, hint), i as int, lines));
}

/// A name stands for the only player who has it. If there is none, or more than
/// one, it stands for the only player in whose name it occurs, in upper or lower
/// case.
pub proof fn law_name_stands_for_one(s: ServerView, text: Seq<char>, i: usize)
    requires
        s.players.len() <= usize::MAX,
    ensures
        ({
            let has = |k: int| s.players[k]->0.player_name == text;
            let like = |k: int| name_has(s.players, text, k);
            s.named_player(text) == Some(i) <==> {
                ||| only_one(s.players, has, i as int)
                ||| only_one(s.players, like, i as int) && forall|k: int|
                    !#[trigger] only_one(s.players, has, k)
            }
        }),
{
    reveal(ServerView::named_player);
    let slots = s.players;
    let has = |k: int| slots[k]->0.player_name == text;
    let like = |k: int| name_has(slots, text, k);
    assert forall|k: int| #[trigger] only_one(slots, has, k) implies unique_match(slots, text)
        == Some(k as usize) by {
        law_unique_match(slots, text, k as usize);
        assert forall|j: int|
            0 <= j < slots.len() && j != k && (#[trigger] slots[j]) is Some implies
            slots[j]->0.player_name != text by {
            assert(has(j) ==> j == k);
        }
    }
    if let Some(k) = unique_match(slots, text) {
        lemma_unique_in_range(slots, text);
        law_unique_match(slots, text, k);
        assert forall|j: int|
            0 <= j < slots.len() && (#[trigger] slots[j]) is Some && has(j) implies j == k by {}
        assert(only_one(slots, has, k as int));
    } else {
        assert forall|k: int| !#[trigger] only_one(slots, has, k) by {}
        law_search_finds_the_first(slots, text);
        let list = search_matches(slots, text);
        if list.len() == 1 {
            let k = list[0].0 as int;
            assert(like(k));
            assert forall|j: int|
                0 <= j < slots.len() && (#[trigger] slots[j]) is Some && like(j) implies j == k by {}
            assert(only_one(slots, like, k));
        } else if only_one(slots, like, i as int) {
            assert(exists|a: int| 0 <= a < list.len() && (#[trigger] list[a]).0 == i);
            let k1 = list[1].0 as int;
            let k0 = list[0].0 as int;
            assert(like(k0) && like(k1) && k0 < k1);
            assert(slots[k0] is Some && slots[k1] is Some);
        }
    }
}

proof fn lemma_unique_in_range(slots: Seq<Option<PlayerView>>, name: Seq<char>)
    requires
        slots.len() <= usize::MAX,
    ensures
        unique_match(slots, name) matches Some(i) ==> i < slots.len(),
{
    lemma_first_in_range(
        slots,
        |p: Option<PlayerView>| p is Some && p->0.player_name == name,
        0,
    );
}

/// A spectator who asks for it sees through the eyes of another player, and is
/// told so. Who is on the ice is told that this cannot be, and so is who asks for
/// a player who is not there. Nothing else happens.
pub proof fn law_view_is_changed(s: ServerView, target: usize, i: usize)
    requires
        s.numbered(),
        i < s.players.len(),
        s.players[i as int] is Some,
    ensures
        ({
            let t = s.after_view(target, i);
            let p = s.players[i as int]->0;
            let seen = ServerView {
                players: s.players.update(
                    i as int,
                    Some(PlayerView { view_player_index: target, ..p }),
                ),
                ..s
            };
            let on_ice = exists|k: int| skates(s.game.world.objects, i, k);
            if target >= s.players.len() {
                t == s
            } else if s.players[target as int] is None {
                told_one(s, t, i as int, server_line("No player with this ID exists"@))
            } else if target == p.view_player_index {
                t == s
            } else if on_ice {
                told_one(s, t, i as int, server_line("You must be a spectator to change view"@))
            } else if target != i {
                told_one(
                    seen,
                    t,
                    i as int,
                    server_line("You are now viewing "@ + s.players[target as int]->0.player_name),
                )
            } else {
                told_one(seen, t, i as int, server_line("View has been restored"@))
            }
        }),
{
    reveal(ServerView::after_view);
    reveal(ServerView::directed);
    law_skater_is_found(s.game.world, i, 0);
}

/// A player who asks for it sees through their own eyes again, and is told so if
/// that is something new.
pub proof fn law_view_is_restored(s: ServerView, i: usize)
    requires
        i < s.players.len(),
        s.players[i as int] is Some,
    ensures
        ({
            let t = s.after_restore_view(i);
            let p = s.players[i as int]->0;
            let seen = ServerView {
                players: s.players.update(
                    i as int,
                    Some(PlayerView { view_player_index: i, ..p }),
                ),
                ..s
            };
            if p.view_player_index == i {
                t == s
            } else {
                told_one(seen, t, i as int, server_line("View has been restored"@))
            }
        }),
{
    reveal(ServerView::after_restore_view);
    reveal(ServerView::directed);
}

/// Who asks for the ping of a player gets all that the server has measured of that
/// player. If there is nothing, or no such player, they are told so.
pub proof fn law_ping_is_looked_up(s: ServerView, target: usize, i: usize)
    ensures
        ({
            let (t, request) = s.after_ping(target, i);
            if target >= s.players.len() {
                t == s && request is None
            } else {
                match s.players[target as int] {
                    Some(p) => if p.last_ping.len() == 0 {
                        request is None && told_one(
                            s,
                            t,
                            i as int,
                            server_line("No ping values found for "@ + p.player_name),
                        )
                    } else {
                        t == s && request == Some(
                            RequestView::PingStatistics {
                                player_index: i,
                                player_name: p.player_name,
                                samples: p.last_ping,
                            },
                        )
                    },
                    None => request is None && told_one(
                        s,
                        t,
                        i as int,
                        server_line("No player with this ID exists"@),
                    ),
                }
            }
        }),
{
    reveal(ServerView::after_ping);
    reveal(ServerView::directed);
}

/// Who is not in the server is told nothing, and nothing changes for them.
pub proof fn law_absent_players_change_nothing(
    s: ServerView,
    i: usize,
    hand: HQMSkaterHand,
    target: usize,
    sender: Option<usize>,
    line: Seq<char>,
)
    requires
        i >= s.players.len() || s.players[i as int] is None,
    ensures
        s.with_hand(i, hand) == s,
        s.after_view(target, i) == s,
        s.after_restore_view(i) == s,
        s.directed(i, sender, line) == s,
        s.spectating(i) == s,
        s.without_player(i) == s,
{
    reveal(ServerView::directed);
    reveal(ServerView::with_hand);
    reveal(ServerView::after_view);
    reveal(ServerView::after_restore_view);
    reveal(ServerView::spectating);
    reveal(ServerView::without_player);
}

/// How long the words are that stand for commands, and what they start with. No
/// two of them agree in both.
proof fn lemma_command_words()
    ensures
        "enablejoin"@.len() == 10 && "enablejoin"@[0] == 'e',
        "disablejoin"@.len() == 11 && "disablejoin"@[0] == 'd',
        "mute"@.len() == 4 && "mute"@[0] == 'm',
        "unmute"@.len() == 6 && "unmute"@[0] == 'u',
        "mutechat"@.len() == 8 && "mutechat"@[0] == 'm',
        "unmutechat"@.len() == 10 && "unmutechat"@[0] == 'u',
        "fs"@.len() == 2 && "fs"@[0] == 'f',
        "kick"@.len() == 4 && "kick"@[0] == 'k',
        "kickall"@.len() == 7 && "kickall"@[0] == 'k',
        "ban"@.len() == 3 && "ban"@[0] == 'b',
        "banall"@.len() == 6 && "banall"@[0] == 'b',
        "clearbans"@.len() == 9 && "clearbans"@[0] == 'c',
        "lefty"@.len() == 5 && "lefty"@[0] == 'l',
        "righty"@.len() == 6 && "righty"@[0] == 'r',
        "admin"@.len() == 5 && "admin"@[0] == 'a',
        "list"@.len() == 4 && "list"@[0] == 'l',
        "search"@.len() == 6 && "search"@[0] == 's',
        "ping"@.len() == 4 && "ping"@[0] == 'p',
        "pings"@.len() == 5 && "pings"@[0] == 'p',
        "view"@.len() == 4 && "view"@[0] == 'v',
        "views"@.len() == 5 && "views"@[0] == 'v',
        "restoreview"@.len() == 11 && "restoreview"@[0] == 'r',
{
    reveal_strlit("enablejoin");
    reveal_strlit("disablejoin");
    reveal_strlit("mute");
    reveal_strlit("unmute");
    reveal_strlit("mutechat");
    reveal_strlit("unmutechat");
    reveal_strlit("fs");
    reveal_strlit("kick");
    reveal_strlit("kickall");
    reveal_strlit("ban");
    reveal_strlit("banall");
    reveal_strlit("clearbans");
    reveal_strlit("lefty");
    reveal_strlit("righty");
    reveal_strlit("admin");
    reveal_strlit("list");
    reveal_strlit("search");
    reveal_strlit("ping");
    reveal_strlit("pings");
    reveal_strlit("view");
    reveal_strlit("views");
    reveal_strlit("restoreview");
}

/// All that comes of a command is a request to the administration of the server,
/// if any.
pub open spec fn only_asks<B>(
    b0: B,
    s0: ServerView,
    i: usize,
    b1: B,
    s1: ServerView,
    request: Option<RequestView>,
    asked: Option<AdminCommandView>,
) -> bool {
    &&& b1 == b0
    &&& s1 == s0
    &&& request == (match asked {
        Some(command) => Some(RequestView::Admin { player_index: i, command }),
        None => None,
    })
}

/// The player slot that an argument stands for, if there is such a slot.
pub open spec fn target_of(s: ServerView, arg: Seq<char>) -> Option<usize> {
    if index_of(arg) is Some && index_of(arg)->0 < s.players.len() {
        index_of(arg)
    } else {
        None
    }
}

/// A command for administrators goes to the administration of the server, with
/// the player who gave it. If it needs a player slot and there is no such slot,
/// nothing comes of it.
pub proof fn law_admin_commands_are_passed_on<B: HQMServerBehaviour>(
    b0: B,
    s0: ServerView,
    command: Seq<char>,
    arg: Seq<char>,
    i: usize,
    b1: B,
    s1: ServerView,
    request: Option<RequestView>,
)
    requires
        command_done(b0, s0, command, arg, i, b1, s1, request),
    ensures
        ({
            let passed_on = |asked: Option<AdminCommandView>|
                only_asks(b0, s0, i, b1, s1, request, asked);
            let target = target_of(s0, arg);
            let no_target = target is None && passed_on(None);
            &&& command == "enablejoin"@ ==> passed_on(Some(AdminCommandView::SetAllowJoin(true)))
            &&& command == "disablejoin"@ ==> passed_on(Some(AdminCommandView::SetAllowJoin(false)))
            &&& command == "mute"@ ==> no_target || target is Some && passed_on(
                Some(AdminCommandView::Mute(target->0)),
            )
            &&& command == "unmute"@ ==> no_target || target is Some && passed_on(
                Some(AdminCommandView::Unmute(target->0)),
            )
            &&& command == "mutechat"@ ==> passed_on(Some(AdminCommandView::MuteChat))
            &&& command == "unmutechat"@ ==> passed_on(Some(AdminCommandView::UnmuteChat))
            &&& command == "fs"@ ==> no_target || target is Some && passed_on(
                Some(AdminCommandView::ForceOffIce(target->0)),
            )
            &&& command == "kick"@ ==> no_target || target is Some && passed_on(
                Some(AdminCommandView::Kick { player_index: target->0, ban: false }),
            )
            &&& command == "ban"@ ==> no_target || target is Some && passed_on(
                Some(AdminCommandView::Kick { player_index: target->0, ban: true }),
            )
            &&& command == "kickall"@ ==> passed_on(
                Some(AdminCommandView::KickAllMatching { name: arg, ban: false }),
            )
            &&& command == "banall"@ ==> passed_on(
                Some(AdminCommandView::KickAllMatching { name: arg, ban: true }),
            )
            &&& command == "clearbans"@ ==> passed_on(Some(AdminCommandView::ClearBans))
            &&& command == "admin"@ ==> passed_on(Some(AdminCommandView::Login { password: arg }))
        }),
{
    reveal(command_done);
    reveal(admin_command_of);
    lemma_command_words();
}

/// A command that any player may give does what it says, and the rules of play are
/// not asked.
pub proof fn law_player_commands_are_carried_out<B: HQMServerBehaviour>(
    b0: B,
    s0: ServerView,
    command: Seq<char>,
    arg: Seq<char>,
    i: usize,
    b1: B,
    s1: ServerView,
    request: Option<RequestView>,
)
    requires
        command_done(b0, s0, command, arg, i, b1, s1, request),
    ensures
        ({
            let done = |t: ServerView| b1 == b0 && s1 == t && request is None;
            let done_ping = |target: usize| b1 == b0 && (s1, request) == s0.after_ping(target, i);
            let number = index_of(arg);
            let named = s0.named_player(arg);
            let none = number is None && done(s0);
            &&& command == "lefty"@ ==> done(s0.with_hand(i, HQMSkaterHand::Left))
            &&& command == "righty"@ ==> done(s0.with_hand(i, HQMSkaterHand::Right))
            &&& command == "list"@ ==> if arg.len() == 0 {
                done(s0.after_list(i, 0))
            } else {
                none || number is Some && done(s0.after_list(i, number->0))
            }
            &&& command == "search"@ ==> done(s0.after_search(i, arg))
            &&& command == "ping"@ ==> none || number is Some && done_ping(number->0)
            &&& command == "view"@ ==> none || number is Some && done(s0.after_view(number->0, i))
            &&& command == "pings"@ ==> match named {
                Some(target) => done_ping(target),
                None => done(
                    s0.after_ambiguous(i, arg, "Multiple matches found, use /ping X"@),
                ),
            }
            &&& command == "views"@ ==> match named {
                Some(target) => done(s0.after_view(target, i)),
                None => done(
                    s0.after_ambiguous(i, arg, "Multiple matches found, use /view X"@),
                ),
            }
            &&& command == "restoreview"@ ==> done(s0.after_restore_view(i))
        }),
{
    reveal(command_done);
    reveal(admin_command_of);
    reveal(ServerView::after_player_command);
    lemma_command_words();
}

/// A command that the server does not know goes to the rules of play, with its
/// argument and the player who gave it.
pub proof fn law_unknown_commands_go_to_the_rules<B: HQMServerBehaviour>(
    b0: B,
    s0: ServerView,
    command: Seq<char>,
    arg: Seq<char>,
    i: usize,
    b1: B,
    s1: ServerView,
    request: Option<RequestView>,
)
    requires
        command_done(b0, s0, command, arg, i, b1, s1, request),
        command != "enablejoin"@,
        command != "disablejoin"@,
        command != "mute"@,
        command != "unmute"@,
        command != "mutechat"@,
        command != "unmutechat"@,
        command != "fs"@,
        command != "kick"@,
        command != "kickall"@,
        command != "ban"@,
        command != "banall"@,
        command != "clearbans"@,
        command != "lefty"@,
        command != "righty"@,
        command != "admin"@,
        command != "list"@,
        command != "search"@,
        command != "ping"@,
        command != "pings"@,
        command != "view"@,
        command != "views"@,
        command != "restoreview"@,
    ensures
        B::command_handled(b0, s0, command, arg, i, b1, s1),
        request is None,
{
    reveal(command_done);
    reveal(admin_command_of);
    reveal(ServerView::after_player_command);
}

} // verus!
