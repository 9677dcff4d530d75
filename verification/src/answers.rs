//! What the answer to a command may change.
use crate::commands::{listed, search_matches};
use crate::hqm_game::{GameView, HQMGameObject, HQMSkater, HQMSkaterHand, WorldView};
use crate::invariants::same_skaters;
use crate::players::{msgpos_valid, PlayerView};
use crate::search::{lemma_first_from, lemma_first_in_range};
use crate::server::ServerView;
use crate::text::{index_of, list_line};
use vstd::prelude::*;

verus! {

/// A player `q` who was `p` before a command of theirs, as player `i`, was
/// answered. Only who is not on the ice may look at the game through the eyes of
/// another.
pub open spec fn answered_player(p: PlayerView, q: PlayerView, i: usize, on_ice: bool) -> bool {
    &&& q == (PlayerView {
        messages: q.messages,
        view_player_index: q.view_player_index,
        hand: q.hand,
        ..p
    })
    &&& p.messages.len() <= q.messages.len()
    &&& q.view_player_index == p.view_player_index || q.view_player_index == i || !on_ice
}

/// `t` is what `s` may have become when a command of player `i` was answered:
/// the player has been told something, sees through other eyes, or has another
/// hand.
#[verifier::opaque]
pub open spec fn answered(s: ServerView, t: ServerView, i: usize) -> bool {
    let a = s.game.world.objects;
    let b = t.game.world.objects;
    &&& t == (ServerView {
        players: t.players,
        game: GameView { world: WorldView { objects: b, ..s.game.world }, ..s.game },
        ..s
    })
    &&& t.players.len() == s.players.len()
    &&& forall|j: int|
        0 <= j < s.players.len() && j != i ==> #[trigger] t.players[j] == s.players[j]
    &&& match (s.player(i), t.player(i)) {
        (Some(p), Some(q)) => answered_player(p, q, i, s.game.world.skater_slot(i) is Some),
        (None, None) => true,
        _ => false,
    }
    &&& a.len() == b.len()
    &&& a.len() <= usize::MAX ==> same_skaters(a, b)
}

/// Nothing may have changed.
proof fn lemma_answered_nothing(s: ServerView, i: usize)
    ensures
        answered(s, s, i),
{
    reveal(answered);
}

/// The player may see through other eyes.
proof fn lemma_answered_view(s: ServerView, i: usize, target: usize)
    requires
        s.player(i) is Some,
        target == i || s.game.world.skater_slot(i) is None,
    ensures
        answered(
            s,
            s.with_player(i, PlayerView { view_player_index: target, ..s.player(i)->0 }),
            i,
        ),
{
    reveal(answered);
}

/// The player may have chosen a hand.
proof fn lemma_answered_hand(s: ServerView, i: usize, hand: HQMSkaterHand)
    requires
        s.player(i) is Some,
    ensures
        answered(s, s.with_player(i, PlayerView { hand, ..s.player(i)->0 }), i),
{
    reveal(answered);
}

/// The player may be told something more.
proof fn lemma_answered_tell(s: ServerView, t: ServerView, i: usize, message: Seq<char>)
    requires
        answered(s, t, i),
    ensures
        answered(s, t.tell(i, message), i),
{
    reveal(answered);
    reveal(ServerView::directed);
}

/// The player may be told a list.
proof fn lemma_answered_list(
    s: ServerView,
    t: ServerView,
    i: usize,
    list: Seq<(usize, Seq<char>)>,
)
    requires
        answered(s, t, i),
    ensures
        answered(s, t.tell_list(i, list), i),
    decreases list.len(),
{
    if list.len() > 0 {
        lemma_answered_list(s, t, i, list.drop_last());
        lemma_answered_tell(
            s,
            t.tell_list(i, list.drop_last()),
            i,
            list_line(list.last().0, list.last().1),
        );
    }
}

/// Listing and searching are answers.
proof fn lemma_lists_answer(
    s: ServerView,
    i: usize,
    first: usize,
    name: Seq<char>,
    hint: Seq<char>,
)
    ensures
        answered(s, s.after_list(i, first), i),
        answered(s, s.after_search(i, name), i),
        answered(s, s.after_ambiguous(i, name, hint), i),
{
    reveal(ServerView::after_list);
    reveal(ServerView::after_search);
    reveal(ServerView::after_ambiguous);
    let matches = search_matches(s.players, name);
    lemma_answered_nothing(s, i);
    lemma_answered_list(s, s, i, listed(s.players, first as int));
    lemma_answered_list(s, s, i, matches);
    lemma_answered_tell(s, s, i, "No matches found"@);
    lemma_answered_tell(s, s, i, hint);
    lemma_answered_list(s, s.tell(i, hint), i, matches);
}

/// Changing the view is an answer.
proof fn lemma_view_answers(s: ServerView, target: usize, i: usize)
    ensures
        answered(s, s.after_view(target, i), i),
{
    reveal(ServerView::after_view);
    lemma_answered_nothing(s, i);
    lemma_answered_tell(s, s, i, "No player with this ID exists"@);
    lemma_answered_tell(s, s, i, "You must be a spectator to change view"@);
    if let Some(player) = s.player(i) {
        if s.game.world.skater_slot(i) is None {
            let seen = s.with_player(i, PlayerView { view_player_index: target, ..player });
            lemma_answered_view(s, i, target);
            lemma_answered_tell(s, seen, i, "View has been restored"@);
            if let Some(target_player) = s.player(target) {
                lemma_answered_tell(
                    s,
                    seen,
                    i,
                    "You are now viewing "@ + target_player.player_name,
                );
            }
        }
    }
}

/// Restoring the view is an answer.
proof fn lemma_restore_view_answers(s: ServerView, i: usize)
    ensures
        answered(s, s.after_restore_view(i), i),
{
    reveal(ServerView::after_restore_view);
    lemma_answered_nothing(s, i);
    if let Some(player) = s.player(i) {
        let seen = s.with_player(i, PlayerView { view_player_index: i, ..player });
        lemma_answered_view(s, i, i);
        lemma_answered_tell(s, seen, i, "View has been restored"@);
    }
}

/// What is told of a ping is an answer.
proof fn lemma_ping_answers(s: ServerView, target: usize, i: usize)
    ensures
        answered(s, s.after_ping(target, i).0, i),
{
    reveal(ServerView::after_ping);
    lemma_answered_nothing(s, i);
    lemma_answered_tell(s, s, i, "No player with this ID exists"@);
    if let Some(player) = s.player(target) {
        lemma_answered_tell(s, s, i, "No ping values found for "@ + player.player_name);
    }
}

/// The skater of the player may have another hand too.
proof fn lemma_answered_skater(s: ServerView, i: usize, hand: HQMSkaterHand, slot: usize)
    requires
        s.player(i) is Some,
        s.game.world.skater_slot(i) == Some(slot),
    ensures
        answered(
            s,
            s.with_player(i, PlayerView { hand, ..s.player(i)->0 }).with_world(
                s.game.world.with_object(
                    slot,
                    HQMGameObject::Player(
                        HQMSkater { hand, ..s.game.world.objects[slot as int]->Player_0 },
                    ),
                ),
            ),
            i,
        ),
{
    reveal(answered);
    let objects = s.game.world.objects;
    let p = |o: HQMGameObject| o.is_skater_of(i);
    lemma_first_in_range(objects, p, 0);
    if objects.len() <= usize::MAX {
        lemma_first_from(objects, p, 0);
    }
}

/// Choosing a hand is an answer.
pub proof fn lemma_hand_answers(s: ServerView, i: usize, hand: HQMSkaterHand)
    ensures
        answered(s, s.with_hand(i, hand), i),
{
    reveal(ServerView::with_hand);
    lemma_answered_nothing(s, i);
    if let Some(player) = s.player(i) {
        let chosen = s.with_player(i, PlayerView { hand, ..player });
        lemma_answered_hand(s, i, hand);
        lemma_answered_tell(s, chosen, i, "Stick hand will change after next intermission"@);
        if let Some(slot) = s.game.world.skater_slot(i) {
            lemma_answered_skater(s, i, hand, slot);
        }
    }
}

/// Every command that the server knows is answered in this way.
pub proof fn lemma_commands_answer(s: ServerView, command: Seq<char>, arg: Seq<char>, i: usize)
    ensures
        s.after_command(command, arg, i) matches Some((t, _)) ==> answered(s, t, i),
{
    reveal(ServerView::after_player_command);
    lemma_answered_nothing(s, i);
    lemma_hand_answers(s, i, HQMSkaterHand::Left);
    lemma_hand_answers(s, i, HQMSkaterHand::Right);
    lemma_lists_answer(s, i, 0, arg, "Multiple matches found, use /ping X"@);
    lemma_lists_answer(s, i, 0, arg, "Multiple matches found, use /view X"@);
    lemma_restore_view_answers(s, i);
    if let Some(n) = index_of(arg) {
        lemma_lists_answer(s, i, n, arg, arg);
        lemma_ping_answers(s, n, i);
        lemma_view_answers(s, n, i);
    }
    if let Some(n) = s.named_player(arg) {
        lemma_ping_answers(s, n, i);
        lemma_view_answers(s, n, i);
    }
}

/// An answer keeps the game well-formed and the clients in step.
pub proof fn lemma_answered_kept(s: ServerView, t: ServerView, i: usize)
    requires
        answered(s, t, i),
    ensures
        s.game.wf() ==> t.game.wf(),
        s.in_sync() ==> t.in_sync(),
{
    reveal(ServerView::in_sync);
    reveal(GameView::wf);
    reveal(answered);
    if s.in_sync() {
        assert forall|j: int|
            0 <= j < t.players.len() && (#[trigger] t.players[j]) is Some implies msgpos_valid(
            t.game_id,
            t.players[j]->0,
        ) by {
            assert(j != i ==> t.players[j] == s.players[j]);
            assert(s.players[j] is Some);
        }
    }
}

} // verus!
