//! The simulation step, as far as the server has a part in it, and the change
//! from one game to the next.
use crate::behaviour::HQMServerBehaviour;
use crate::commands::{found, list_view};
use crate::hqm_game::{
    object_packets, ticks_view, ticks_wf, GameView, HQMGame, HQMGameObject, HQMSavedTick, HQMSkater,
    HQMStartTime, TickView, WorldView, OBJECT_SLOTS,
};
use crate::players::{count_players, msgpos_valid, slots_view, HQMSocketAddr, PlayerView};
use crate::protocol::get_packets;
use crate::search::lemma_first_same;
use crate::server::{group_game_wf, group_in_sync, player_news, HQMServer, ServerView};
use crate::text::{concat, padded, padded_string};
use crate::updates::{
    law_update_fits, outgoing_view, overlay, replay_bits, send_updates, update_bits, updates,
    updates_buffer, write_replay, UPDATE_BUFFER_SIZE,
};
use std::collections::VecDeque;
use vstd::prelude::*;

verus! {

/// The replay of a game, to be saved.
#[derive(Debug)]
pub struct HQMReplayFile {
    pub file_name: String,
    pub contents: Vec<u8>,
}

/// The contents of an [`HQMReplayFile`].
pub struct ReplayView {
    pub file_name: Seq<char>,
    pub contents: Seq<u8>,
}

impl View for HQMReplayFile {
    type V = ReplayView;

    open spec fn view(&self) -> ReplayView {
        ReplayView { file_name: self.file_name@, contents: self.contents@ }
    }
}

/// The contents of what may be a replay.
pub open spec fn replay_view(file: Option<HQMReplayFile>) -> Option<ReplayView> {
    match file {
        Some(f) => Some(f@),
        None => None,
    }
}

/// The start of a game as text: year, month and day with hyphens between them, a
/// `T`, then hour, minute and second. A year of more than four digits has a plus
/// sign before it.
pub open spec fn start_text(start: HQMStartTime) -> Seq<char> {
    let year = if start.year <= 9999 {
        padded(start.year as nat, 4)
    } else {
        "+"@ + padded(start.year as nat, 4)
    };
    year + "-"@ + padded(start.month as nat, 2) + "-"@ + padded(start.day as nat, 2) + "T"@
        + padded(start.hour as nat, 2) + padded(start.minute as nat, 2) + padded(
        start.second as nat,
        2,
    )
}

/// The start of a game as text.
fn format_start(start: HQMStartTime) -> (s: String)
    ensures
        s@ == start_text(start),
{
    let year = padded_string(start.year as usize, 4);
    let mut s = if start.year <= 9999 {
        year
    } else {
        concat("+", year.as_str())
    };
    s.append("-");
    s.append(padded_string(start.month as usize, 2).as_str());
    s.append("-");
    s.append(padded_string(start.day as usize, 2).as_str());
    s.append("T");
    s.append(padded_string(start.hour as usize, 2).as_str());
    s.append(padded_string(start.minute as usize, 2).as_str());
    s.append(padded_string(start.second as usize, 2).as_str());
    s
}

/// The four bytes of a number, the lowest first.
pub open spec fn le_bytes(v: u32) -> Seq<u8> {
    seq![
        (v % 256) as u8,
        (v / 256 % 256) as u8,
        (v / 65536 % 256) as u8,
        (v / 16777216 % 256) as u8,
    ]
}

fn push_le_bytes(bytes: &mut Vec<u8>, v: u32)
    ensures
        final(bytes)@ =~= old(bytes)@ + le_bytes(v),
{
    bytes.push((v % 256) as u8);
    bytes.push((v / 256 % 256) as u8);
    bytes.push((v / 65536 % 256) as u8);
    bytes.push((v / 16777216 % 256) as u8);
}

/// A player slot at the start of a game. What was sent before counts no more.
pub open spec fn reset_slot(slot: Option<PlayerView>) -> Option<PlayerView> {
    match slot {
        Some(player) => Some(
            PlayerView {
                known_msgpos: 0,
                known_packet: u32::MAX,
                messages: Seq::empty(),
                ..player
            },
        ),
        None => None,
    }
}

impl ServerView {
    /// The connected players with their slots.
    #[verifier::opaque]
    pub open spec fn roster(self) -> Seq<(usize, Seq<char>)> {
        found(self.players, |i: int| true, 0, self.players.len() as int)
    }

    /// After it has been announced of some players that they are in the server
    /// and not on the ice.
    pub open spec fn announce_all(self, list: Seq<(usize, Seq<char>)>) -> Self
        decreases list.len(),
    {
        if list.len() == 0 {
            self
        } else {
            self.announce_all(list.drop_last()).broadcast(
                player_news(list.last().0, list.last().1, None, true),
                true,
            )
        }
    }

    /// At the start of a game, before the players have been announced.
    #[verifier::opaque]
    pub open spec fn reset(self, game: GameView) -> Self {
        ServerView {
            players: Seq::new(self.players.len(), |i: int| reset_slot(self.players[i])),
            game,
            game_id: (self.game_id + 1) as u32,
            ..self
        }
    }

    /// After a new game has started.
    #[verifier::opaque]
    pub open spec fn after_new_game(self, game: GameView) -> Self {
        self.reset(game).announce_all(self.roster())
    }

    /// The replay of the current game, if it is to be saved. It starts with two
    /// numbers, the second of which is the size of what follows.
    pub open spec fn replay(self) -> Option<ReplayView> {
        if self.config.replays_enabled && self.game.period != 0 {
            Some(
                ReplayView {
                    file_name: self.config.server_name + "."@ + start_text(
                        self.game.start_time,
                    ) + ".hrp"@,
                    contents: le_bytes(0) + le_bytes(self.game.replay_data.len() as u32)
                        + self.game.replay_data,
                },
            )
        } else {
            None
        }
    }
}

/// Announcing players keeps the game well-formed and the clients in step.
pub proof fn lemma_announce_all_kept(s: ServerView, list: Seq<(usize, Seq<char>)>)
    ensures
        s.game.wf() ==> s.announce_all(list).game.wf(),
        s.in_sync() ==> s.announce_all(list).in_sync(),
    decreases list.len(),
{
    broadcast use {group_game_wf, group_in_sync};

    if list.len() > 0 {
        lemma_announce_all_kept(s, list.drop_last());
    }
}

impl HQMServer {
    /// Puts another game in place of the current one.
    fn set_game(&mut self, game: HQMGame) -> (old_game: HQMGame)
        requires
            old(self)@.game_id < u32::MAX,
        ensures
            old_game@ == old(self)@.game,
            final(self)@ == (ServerView {
                game: game@,
                game_id: (old(self)@.game_id + 1) as u32,
                ..old(self)@
            }),
    {
        reveal(HQMServer::state);
        let mut old_game = game;
        std::mem::swap(&mut self.game, &mut old_game);
        self.game_id = self.game_id + 1;
        old_game
    }

    /// The replay of a game that is over, if it is to be saved.
    fn take_replay(&self, old_game: HQMGame) -> (file: Option<HQMReplayFile>)
        ensures
            replay_view(file) == (ServerView { game: old_game@, ..self@ }).replay(),
    {
        reveal(HQMServer::state);
        if self.config.replays_enabled && old_game.period != 0 {
            let mut file_name = concat(self.config.server_name.as_str(), ".");
            let start = format_start(old_game.start_time);
            file_name.append(start.as_str());
            file_name.append(".hrp");
            let mut replay_data = old_game.replay_data;
            let mut contents: Vec<u8> = Vec::new();
            push_le_bytes(&mut contents, 0);
            push_le_bytes(&mut contents, replay_data.len() as u32);
            contents.append(&mut replay_data);
            assert(contents@ =~= le_bytes(0) + le_bytes(old_game.replay_data@.len() as u32)
                + old_game.replay_data@);
            Some(HQMReplayFile { file_name, contents })
        } else {
            None
        }
    }

    /// Makes a player forget what was sent before. Returns their name.
    fn reset_player(&mut self, player_index: usize) -> (name: Option<String>)
        requires
            player_index < old(self)@.players.len(),
        ensures
            final(self)@ == (ServerView {
                players: old(self)@.players.update(
                    player_index as int,
                    reset_slot(old(self)@.players[player_index as int]),
                ),
                ..old(self)@
            }),
            match name {
                Some(n) => old(self)@.players[player_index as int] is Some && n@ == old(
                    self,
                )@.players[player_index as int]->0.player_name,
                None => old(self)@.players[player_index as int] is None,
            },
    {
        reveal(HQMServer::state);
        let ghost pre = self@.players;
        match self.players.get_mut(player_index) {
            Some(player) => {
                player.known_msgpos = 0;
                player.known_packet = u32::MAX;
                player.messages.clear();
                assert(player@.messages =~= Seq::empty());
                Some(player.player_name.clone())
            },
            None => {
                assert(pre.update(player_index as int, None) =~= pre);
                None
            },
        }
    }

    /// Makes all players forget what was sent before. Returns who they are.
    fn reset_players(&mut self) -> (list: Vec<(usize, String)>)
        ensures
            final(self)@ == (ServerView {
                players: Seq::new(
                    old(self)@.players.len(),
                    |i: int| reset_slot(old(self)@.players[i]),
                ),
                ..old(self)@
            }),
            list_view(list@) == old(self)@.roster(),
    {
        reveal(ServerView::roster);
        let ghost pre = self@;
        let ghost hit = |i: int| true;
        let n: usize = self.slots();
        let mut list: Vec<(usize, String)> = Vec::new();
        let mut i: usize = 0;
        while i < n
            invariant
                i <= n == pre.players.len(),
                hit == (|i: int| true),
                self@.players.len() == n,
                self@ == (ServerView { players: self@.players, ..pre }),
                forall|j: int|
                    0 <= j < i ==> #[trigger] self@.players[j] == reset_slot(pre.players[j]),
                forall|j: int| i <= j < n ==> #[trigger] self@.players[j] == pre.players[j],
                list_view(list@) =~= found(pre.players, hit, 0, i as int),
            decreases n - i,
        {
            if let Some(name) = self.reset_player(i) {
                let ghost before = list_view(list@);
                list.push((i, name));
                assert(list_view(list@) =~= before.push((i, name@)));
            }
            i = i + 1;
        }
        assert(self@.players =~= Seq::new(n as nat, |i: int| reset_slot(pre.players[i])));
        list
    }

    /// Announces of some players that they are in the server and not on the ice.
    fn announce_players(&mut self, list: &Vec<(usize, String)>)
        ensures
            final(self)@ == old(self)@.announce_all(list_view(list@)),
    {
        let ghost pre = self@;
        let ghost lines = list_view(list@);
        let mut i: usize = 0;
        assert(lines.take(0) =~= Seq::<(usize, Seq<char>)>::empty());
        while i < list.len()
            invariant
                i <= list@.len(),
                lines == list_view(list@),
                self@ == pre.announce_all(lines.take(i as int)),
            decreases list@.len() - i,
        {
            self.announce(list[i].0, list[i].1.clone(), None, true);
            assert(lines.take(i + 1).drop_last() =~= lines.take(i as int));
            i = i + 1;
        }
        assert(lines.take(list@.len() as int) =~= lines);
    }

    /// Starts a new game, but for the announcement of the players. Returns the
    /// replay of the one before, if it is to be saved, and the players.
    #[verifier::spinoff_prover]
    fn restart(&mut self, new_game: HQMGame) -> (r: (Option<HQMReplayFile>, Vec<(usize, String)>))
        requires
            old(self)@.game_id < u32::MAX,
        ensures
            final(self)@ == old(self)@.reset(new_game@),
            replay_view(r.0) == old(self)@.replay(),
            list_view(r.1@) == old(self)@.roster(),
    {
        let ghost pre = self@;
        let old_game = self.set_game(new_game);
        let file = self.take_replay(old_game);
        let list = self.reset_players();
        assert(self@ == pre.reset(new_game@)) by {
            reveal(ServerView::reset);
        }
        assert(list_view(list@) == pre.roster()) by {
            reveal(ServerView::roster);
        }
        (file, list)
    }

    /// Starts a new game. Returns the replay of the one before, if it is to be saved.
    pub fn new_game(&mut self, new_game: HQMGame) -> (file: Option<HQMReplayFile>)
        requires
            old(self)@.game_id < u32::MAX,
        ensures
            final(self)@ == old(self)@.after_new_game(new_game@),
            replay_view(file) == old(self)@.replay(),
            new_game@.wf() ==> final(self)@.game.wf(),
            final(self)@.in_sync(),
    {
        let ghost pre = self@;
        let (file, list) = self.restart(new_game);
        proof {
            lemma_reset_kept(pre, new_game@);
            lemma_announce_all_kept(self@, list_view(list@));
            reveal(ServerView::after_new_game);
        }
        self.announce_players(&list);
        file
    }
}

/// Simulation steps without a sign of life that a player is allowed.
pub const MAX_INACTIVITY: u32 = 500;

/// A player slot one step later.
pub open spec fn aged_slot(slot: Option<PlayerView>) -> Option<PlayerView> {
    match slot {
        Some(player) => Some(
            PlayerView { inactivity: (player.inactivity + 1) as u32, ..player },
        ),
        None => None,
    }
}

/// An object after the input of its player, if it is the skater of one, has been handed to it.
pub open spec fn steered(s: ServerView, k: int) -> HQMGameObject {
    let object = s.game.world.objects[k];
    match object {
        HQMGameObject::Player(skater) => {
            let i = skater.connected_player_index;
            match s.player(i) {
                Some(player) => if s.game.world.skater_slot(i) == Some(k as usize) {
                    HQMGameObject::Player(HQMSkater { input: player.input, ..skater })
                } else {
                    object
                },
                None => object,
            }
        },
        _ => object,
    }
}

/// The number of the step after step `n`.
pub open spec fn next_step(n: u32) -> u32 {
    if n == u32::MAX {
        0
    } else {
        (n + 1) as u32
    }
}

/// Past steps with a new one, where at most `capacity` are kept. The oldest go.
pub open spec fn remembered(
    ticks: Seq<TickView>,
    tick: TickView,
    capacity: usize,
) -> Seq<TickView> {
    let keep = if capacity == 0 {
        0
    } else {
        capacity - 1
    };
    seq![tick] + (if ticks.len() <= keep {
        ticks
    } else {
        ticks.take(keep)
    })
}

impl ServerView {
    /// One step later, with players in the server.
    #[verifier::opaque]
    pub open spec fn aged(self) -> Self {
        ServerView {
            players: Seq::new(self.players.len(), |i: int| aged_slot(self.players[i])),
            game: GameView { active: true, ..self.game },
            ..self
        }
    }

    /// The players who have not been heard of for too long.
    #[verifier::opaque]
    pub open spec fn timed_out(self) -> Seq<(usize, Seq<char>)> {
        found(
            self.players,
            |i: int| self.players[i]->0.inactivity > MAX_INACTIVITY,
            0,
            self.players.len() as int,
        )
    }

    /// After it has been told of some players that they have timed out.
    pub open spec fn tell_timed_out(self, list: Seq<(usize, Seq<char>)>) -> Self
        decreases list.len(),
    {
        if list.len() == 0 {
            self
        } else {
            self.tell_timed_out(list.drop_last()).chat(None, list.last().1 + " timed out"@)
        }
    }

    /// After each skater has been handed the input of its player.
    #[verifier::opaque]
    pub open spec fn with_inputs(self) -> Self {
        self.with_world(
            WorldView {
                objects: Seq::new(self.game.world.objects.len(), |k: int| steered(self, k)),
                ..self.game.world
            },
        )
    }

    /// After the step has been counted and remembered.
    #[verifier::opaque]
    pub open spec fn stepped(self, now: u64, capacity: usize) -> Self {
        let tick = TickView { packets: object_packets(self.game.world.objects), time: now };
        ServerView {
            game: GameView {
                saved_ticks: remembered(self.game.saved_ticks, tick, capacity),
                packet: next_step(self.game.packet),
                game_step: next_step(self.game.game_step),
                ..self.game
            },
            ..self
        }
    }
}

/// What becomes of a player who has timed out.
pub open spec fn timeout_done<B: HQMServerBehaviour>(
    b0: B,
    s0: ServerView,
    i: usize,
    b1: B,
    s1: ServerView,
) -> bool {
    exists|s: ServerView| #[trigger]
        B::player_exits(b0, s0, i, b1, s) && s1 == s.without_player(i)
}

/// What becomes of some players who have timed out, one after the other.
pub open spec fn timeouts_done<B: HQMServerBehaviour>(
    b0: B,
    s0: ServerView,
    list: Seq<(usize, Seq<char>)>,
    b1: B,
    s1: ServerView,
) -> bool
    decreases list.len(),
{
    if list.len() == 0 {
        b1 == b0 && s1 == s0
    } else {
        exists|b: B, s: ServerView|
            timeouts_done(b0, s0, list.drop_last(), b, s) && #[trigger] timeout_done(
                b,
                s,
                list.last().0,
                b1,
                s1,
            )
    }
}

/// What happens before the objects are moved. The players who have timed out
/// leave, the rules have their say, and the skaters get their input.
pub open spec fn step_begun<B: HQMServerBehaviour>(
    b0: B,
    s0: ServerView,
    b1: B,
    s1: ServerView,
) -> bool {
    let list = s0.aged().timed_out();
    exists|b: B, s: ServerView, t: ServerView|
        #![trigger timeouts_done(b0, s0.aged(), list, b, s), B::tick_begins(b, s.tell_timed_out(list), b1, t)]
        timeouts_done(b0, s0.aged(), list, b, s) && B::tick_begins(
            b,
            s.tell_timed_out(list),
            b1,
            t,
        ) && s1 == t.with_inputs()
}

/// What is to be done next in a simulation step.
#[derive(Debug)]
pub enum HQMTickPhase {
    /// These players have timed out, and the objects are to be moved.
    Simulate(Vec<(usize, String)>),
    /// The players have left, and a new game has been set up. The replay of the
    /// one before may have to be saved.
    Abandoned(Option<HQMReplayFile>),
    /// Nobody is there.
    Idle,
}

/// The contents of an [`HQMTickPhase`].
pub enum PhaseView {
    Simulate(Seq<(usize, Seq<char>)>),
    Abandoned(Option<ReplayView>),
    Idle,
}

impl View for HQMTickPhase {
    type V = PhaseView;

    open spec fn view(&self) -> PhaseView {
        match *self {
            HQMTickPhase::Simulate(list) => PhaseView::Simulate(list_view(list@)),
            HQMTickPhase::Abandoned(file) => PhaseView::Abandoned(replay_view(file)),
            HQMTickPhase::Idle => PhaseView::Idle,
        }
    }
}

/// What happens at the start of a simulation step.
pub open spec fn tick_started<B: HQMServerBehaviour>(
    b0: B,
    s0: ServerView,
    b1: B,
    s1: ServerView,
    phase: PhaseView,
) -> bool {
    if count_players(s0.players) != 0 {
        phase == PhaseView::Simulate(s0.aged().timed_out()) && step_begun(b0, s0, b1, s1)
    } else if s0.game.active {
        exists|game: GameView| #[trigger]
            B::game_created(b0, b1, game) && s1 == (ServerView {
                allow_join: true,
                ..s0.after_new_game(game)
            }) && phase == PhaseView::Abandoned(s0.replay())
    } else {
        b1 == b0 && s1 == s0 && phase == PhaseView::Idle
    }
}

/// What happens after the objects have been moved, where at most `capacity` past
/// steps are kept.
pub open spec fn step_ended<B: HQMServerBehaviour>(
    b0: B,
    s0: ServerView,
    events: Seq<B::Event>,
    now: u64,
    b1: B,
    s1: ServerView,
) -> bool {
    exists|t: ServerView, capacity: usize|
        #![trigger B::tick_ends(b0, s0, events, b1, t), t.stepped(now, capacity)]
        B::tick_ends(b0, s0, events, b1, t) && t.game.saved_ticks.len() <= capacity && s1
            == t.stepped(now, capacity)
}

/// Telling who has timed out keeps the game well-formed and the clients in step.
pub proof fn lemma_tell_timed_out_kept(s: ServerView, list: Seq<(usize, Seq<char>)>)
    ensures
        s.game.wf() ==> s.tell_timed_out(list).game.wf(),
        s.in_sync() ==> s.tell_timed_out(list).in_sync(),
    decreases list.len(),
{
    broadcast use {group_game_wf, group_in_sync};

    if list.len() > 0 {
        lemma_tell_timed_out_kept(s, list.drop_last());
    }
}

/// Calls `VecDeque::capacity`. The result is at least the number of elements;
/// beyond that it is up to the allocator.
#[verifier::external_body]
fn ticks_capacity(ticks: &VecDeque<HQMSavedTick>) -> (capacity: usize)
    ensures
        ticks@.len() <= capacity,
{
    ticks.capacity()
}

impl HQMServer {
    /// Counts a step without a sign of life for a player. Returns their name if
    /// it was one too many.
    fn age_player(&mut self, player_index: usize) -> (name: Option<String>)
        requires
            player_index < old(self)@.players.len(),
            old(self)@.players[player_index as int] matches Some(p) ==> p.inactivity < u32::MAX,
        ensures
            final(self)@ == (ServerView {
                players: old(self)@.players.update(
                    player_index as int,
                    aged_slot(old(self)@.players[player_index as int]),
                ),
                ..old(self)@
            }),
            match (name, aged_slot(old(self)@.players[player_index as int])) {
                (Some(n), Some(p)) => p.inactivity > MAX_INACTIVITY && n@ == p.player_name,
                (None, Some(p)) => p.inactivity <= MAX_INACTIVITY,
                (Some(n), None) => false,
                (None, None) => true,
            },
    {
        reveal(HQMServer::state);
        let ghost pre = self@.players;
        match self.players.get_mut(player_index) {
            Some(player) => {
                player.inactivity = player.inactivity + 1;
                if player.inactivity > MAX_INACTIVITY {
                    Some(player.player_name.clone())
                } else {
                    None
                }
            },
            None => {
                assert(pre.update(player_index as int, None) =~= pre);
                None
            },
        }
    }

    /// Counts a step without a sign of life for all players. Returns those for
    /// whom it was one too many.
    #[verifier::spinoff_prover]
    fn age_players(&mut self) -> (list: Vec<(usize, String)>)
        requires
            forall|i: int|
                0 <= i < old(self)@.players.len() && (#[trigger] old(self)@.players[i]) is Some
                    ==> old(self)@.players[i]->0.inactivity < u32::MAX,
        ensures
            final(self)@ == old(self)@.aged(),
            list_view(list@) == old(self)@.aged().timed_out(),
    {
        reveal(ServerView::timed_out);
        reveal(ServerView::aged);
        let ghost pre = self@;
        let ghost aged = pre.aged();
        let ghost hit = |i: int| aged.players[i]->0.inactivity > MAX_INACTIVITY;
        let n: usize = self.slots();
        let mut list: Vec<(usize, String)> = Vec::new();
        let mut i: usize = 0;
        while i < n
            invariant
                i <= n == pre.players.len(),
                aged == pre.aged(),
                hit == (|i: int| aged.players[i]->0.inactivity > MAX_INACTIVITY),
                forall|j: int|
                    0 <= j < n && (#[trigger] pre.players[j]) is Some
                        ==> pre.players[j]->0.inactivity < u32::MAX,
                self@.players.len() == n,
                self@ == (ServerView { players: self@.players, ..pre }),
                forall|j: int|
                    0 <= j < i ==> #[trigger] self@.players[j] == aged_slot(pre.players[j]),
                forall|j: int| i <= j < n ==> #[trigger] self@.players[j] == pre.players[j],
                list_view(list@) =~= found(aged.players, hit, 0, i as int),
            decreases n - i,
        {
            reveal(ServerView::aged);
            assert(self@.players[i as int] == pre.players[i as int]);
            if let Some(name) = self.age_player(i) {
                let ghost before = list_view(list@);
                list.push((i, name));
                assert(list_view(list@) =~= before.push((i, name@)));
            }
            i = i + 1;
        }
        self.set_active();
        assert(self@.players =~= aged.players);
        list
    }

    /// Notes that players are in the game.
    fn set_active(&mut self)
        ensures
            final(self)@ == (ServerView {
                game: GameView { active: true, ..old(self)@.game },
                ..old(self)@
            }),
    {
        reveal(HQMServer::state);
        self.game.active = true;
    }

    /// Whether players have been in the game.
    fn is_active(&self) -> (r: bool)
        ensures
            r == self@.game.active,
    {
        reveal(HQMServer::state);
        self.game.active
    }

    /// Removes some players who have timed out.
    #[verifier::spinoff_prover]
    fn remove_timed_out<B: HQMServerBehaviour>(
        &mut self,
        list: &Vec<(usize, String)>,
        behaviour: &mut B,
    )
        ensures
            timeouts_done(
                *old(behaviour),
                old(self)@,
                list_view(list@),
                *final(behaviour),
                final(self)@,
            ),
            old(self)@.game.wf() ==> final(self)@.game.wf(),
            old(self)@.in_sync() ==> final(self)@.in_sync(),
    {
        let ghost b0 = *behaviour;
        let ghost s0 = self@;
        let ghost lines = list_view(list@);
        let mut i: usize = 0;
        assert(lines.take(0) =~= Seq::<(usize, Seq<char>)>::empty());
        while i < list.len()
            invariant
                i <= list@.len(),
                lines == list_view(list@),
                timeouts_done(b0, s0, lines.take(i as int), *behaviour, self@),
                s0.game.wf() ==> self@.game.wf(),
                s0.in_sync() ==> self@.in_sync(),
            decreases list@.len() - i,
        {
            broadcast use {group_game_wf, group_in_sync};

            let ghost b = *behaviour;
            let ghost s = self@;
            behaviour.before_player_exit(self, list[i].0);
            self.remove_player(list[i].0);
            assert(lines.take(i + 1).drop_last() =~= lines.take(i as int));
            assert(timeout_done(b, s, lines.take(i + 1).last().0, *behaviour, self@));
            i = i + 1;
        }
        assert(lines.take(list@.len() as int) =~= lines);
    }

    /// Tells of some players that they have timed out.
    #[verifier::spinoff_prover]
    fn tell_timed_out(&mut self, list: &Vec<(usize, String)>)
        ensures
            final(self)@ == old(self)@.tell_timed_out(list_view(list@)),
    {
        let ghost pre = self@;
        let ghost lines = list_view(list@);
        let mut i: usize = 0;
        assert(lines.take(0) =~= Seq::<(usize, Seq<char>)>::empty());
        while i < list.len()
            invariant
                i <= list@.len(),
                lines == list_view(list@),
                self@ == pre.tell_timed_out(lines.take(i as int)),
            decreases list@.len() - i,
        {
            let line = concat(list[i].1.as_str(), " timed out");
            self.add_server_chat_message(line.as_str());
            assert(lines.take(i + 1).drop_last() =~= lines.take(i as int));
            i = i + 1;
        }
        assert(lines.take(list@.len() as int) =~= lines);
    }

    /// Hands the skater of a player the input of the player.
    fn hand_out_input(&mut self, player_index: usize)
        ensures
            old(self)@.game.world.objects.len() <= usize::MAX,
            final(self)@ == (match (
                old(self)@.player(player_index),
                old(self)@.game.world.skater_slot(player_index),
            ) {
                (Some(player), Some(slot)) => old(self)@.with_world(
                    old(self)@.game.world.with_object(
                        slot,
                        HQMGameObject::Player(
                            HQMSkater {
                                input: player.input,
                                ..old(self)@.game.world.objects[slot as int]->Player_0
                            },
                        ),
                    ),
                ),
                _ => old(self)@,
            }),
            old(self)@.game.world.skater_slot(player_index) matches Some(slot) ==> old(
                self,
            )@.game.world.objects[slot as int].is_skater_of(player_index) && slot < old(
                self,
            )@.game.world.objects.len(),
    {
        let skater_slot = self.find_skater(player_index);
        let input = match self.get_player(player_index) {
            Some(player) => player.input,
            None => {
                return ;
            },
        };
        if let Some(slot) = skater_slot {
            if let HQMGameObject::Player(skater) = self.object(slot) {
                let mut skater = skater;
                skater.input = input;
                self.set_object(slot, HQMGameObject::Player(skater));
            }
        }
    }

    /// Hands each skater the input of its player.
    #[verifier::spinoff_prover]
    fn hand_out_inputs(&mut self)
        ensures
            final(self)@ == old(self)@.with_inputs(),
    {
        reveal(ServerView::with_inputs);
        let ghost pre = self@;
        let ghost objects = pre.game.world.objects;
        let n: usize = self.slots();
        let mut i: usize = 0;
        while i < n
            invariant
                i <= n == pre.players.len(),
                objects == pre.game.world.objects,
                self@ == pre.with_world(
                    WorldView { objects: self@.game.world.objects, ..pre.game.world },
                ),
                self@.game.world.objects.len() == objects.len(),
                forall|k: int|
                    0 <= k < objects.len() ==> #[trigger] self@.game.world.objects[k] == (
                    if objects[k] is Player && objects[k]->Player_0.connected_player_index < i {
                        steered(pre, k)
                    } else {
                        objects[k]
                    }),
            decreases n - i,
        {
            let ghost before = self@.game.world;
            proof {
                let p = |o: HQMGameObject| o.is_skater_of(i);
                lemma_first_same(before.objects, objects, p, 0);
                assert(before.skater_slot(i) == pre.game.world.skater_slot(i));
            }
            self.hand_out_input(i);
            assert forall|k: int| 0 <= k < objects.len() implies #[trigger] self@.game.world.objects[k]
                == (if objects[k] is Player && objects[k]->Player_0.connected_player_index < i + 1 {
                steered(pre, k)
            } else {
                objects[k]
            }) by {
                assert(before.objects[k] == (if objects[k] is Player
                    && objects[k]->Player_0.connected_player_index < i {
                    steered(pre, k)
                } else {
                    objects[k]
                }));
            }
            i = i + 1;
        }
        assert(self@.game.world.objects =~= pre.with_inputs().game.world.objects);
    }

    /// Begins a simulation step with players in the server. Returns those who
    /// have timed out.
    #[verifier::spinoff_prover]
    fn begin_step<B: HQMServerBehaviour>(&mut self, behaviour: &mut B) -> (list: Vec<
        (usize, String),
    >)
        requires
            forall|i: int|
                0 <= i < old(self)@.players.len() && (#[trigger] old(self)@.players[i]) is Some
                    ==> old(self)@.players[i]->0.inactivity < u32::MAX,
        ensures
            step_begun(*old(behaviour), old(self)@, *final(behaviour), final(self)@),
            list_view(list@) == old(self)@.aged().timed_out(),
            old(self)@.game.wf() ==> final(self)@.game.wf(),
            old(self)@.in_sync() ==> final(self)@.in_sync(),
    {
        let ghost b0 = *behaviour;
        let ghost s0 = self@;
        let list = self.age_players();
        proof {
            lemma_aged_kept(s0);
        }
        self.remove_timed_out(&list, behaviour);
        let ghost b = *behaviour;
        let ghost s = self@;
        proof {
            lemma_tell_timed_out_kept(s, list_view(list@));
        }
        self.tell_timed_out(&list);
        behaviour.before_tick(self);
        let ghost t = self@;
        self.hand_out_inputs();
        proof {
            lemma_inputs_kept(t);
            assert(timeouts_done(b0, s0.aged(), s0.aged().timed_out(), b, s));
            assert(B::tick_begins(
                b,
                s.tell_timed_out(s0.aged().timed_out()),
                *behaviour,
                t,
            ));
        }
        list
    }

    /// Starts a simulation step. Where the result says so, the caller moves the
    /// objects and then calls [`Self::end_step`].
    pub fn start_tick<B: HQMServerBehaviour>(&mut self, behaviour: &mut B) -> (phase: HQMTickPhase)
        requires
            forall|i: int|
                0 <= i < old(self)@.players.len() && (#[trigger] old(self)@.players[i]) is Some
                    ==> old(self)@.players[i]->0.inactivity < u32::MAX,
            count_players(old(self)@.players) == 0 && old(self)@.game.active ==> old(self)@.game_id
                < u32::MAX,
        ensures
            tick_started(
                *old(behaviour),
                old(self)@,
                *final(behaviour),
                final(self)@,
                phase@,
            ),
            old(self)@.game.wf() ==> final(self)@.game.wf(),
            old(self)@.in_sync() ==> final(self)@.in_sync(),
    {
        if self.player_count() != 0 {
            HQMTickPhase::Simulate(self.begin_step(behaviour))
        } else if self.is_active() {
            let new_game = behaviour.create_game();
            let file = self.new_game(new_game);
            proof {
                lemma_joinable_kept(self@, true);
            }
            self.set_joinable(true);
            HQMTickPhase::Abandoned(file)
        } else {
            HQMTickPhase::Idle
        }
    }

    /// Counts a step and remembers what it looked like, where at most `capacity`
    /// past steps are kept.
    #[verifier::spinoff_prover]
    pub fn save_tick(&mut self, now: u64, capacity: usize)
        requires
            old(self)@.game.world.objects.len() >= OBJECT_SLOTS,
        ensures
            final(self)@ == old(self)@.stepped(now, capacity),
    {
        reveal(ServerView::stepped);
        reveal(HQMServer::state);
        let packets = get_packets(&self.game.world.objects);
        let keep: usize = if capacity == 0 {
            0
        } else {
            capacity - 1
        };
        let tick = HQMSavedTick { packets, time: now };
        self.game.saved_ticks.truncate(keep);
        self.game.saved_ticks.push_front(tick);
        assert(ticks_view(self.game.saved_ticks@) =~= remembered(
            ticks_view(old(self).game.saved_ticks@),
            tick@,
            capacity,
        ));
        self.game.packet = self.game.packet.wrapping_add(1);
        self.game.game_step = self.game.game_step.wrapping_add(1);
    }

    /// Ends a simulation step after the objects have been moved.
    pub fn end_step<B: HQMServerBehaviour>(
        &mut self,
        events: &[B::Event],
        now: u64,
        behaviour: &mut B,
    )
        requires
            old(self)@.game.wf(),
        ensures
            step_ended(
                *old(behaviour),
                old(self)@,
                events@,
                now,
                *final(behaviour),
                final(self)@,
            ),
            final(self)@.game.wf(),
            final(self)@.game.saved_ticks.len() > 0,
            old(self)@.in_sync() ==> final(self)@.in_sync(),
    {
        behaviour.after_tick(self, events);
        let ghost t = self@;
        assert(t.game.world.objects.len() >= OBJECT_SLOTS) by {
            reveal(GameView::wf);
        }
        let capacity: usize = self.tick_capacity();
        self.save_tick(now, capacity);
        proof {
            lemma_stepped_kept(t, now, capacity);
        }
        assert(self@ == t.stepped(now, capacity));
    }

    /// Builds up what the players are sent after a step, and adds the step to
    /// the replay if replays are enabled. Both are built up in `write_buf`.
    pub fn send_step(&mut self, write_buf: &mut Vec<u8>) -> (out: Vec<(HQMSocketAddr, Vec<u8>)>)
        requires
            ticks_wf(old(self)@.game.saved_ticks),
            old(self)@.game.saved_ticks.len() > 0,
            old(self)@.in_sync(),
            UPDATE_BUFFER_SIZE <= old(write_buf)@.len(),
            old(self)@.config.replays_enabled ==> old(self)@.game.replay_msg_pos <= old(
                self,
            )@.game.replay_messages.len() && replay_bits(old(self)@.game).len() < 8 * old(
                write_buf,
            )@.len(),
        ensures
            outgoing_view(out@) == updates(old(self)@.game_id, old(self)@.game, old(self)@.players),
            ({
                let s = old(self)@;
                let buf = updates_buffer(old(write_buf)@, s.game_id, s.game, s.players);
                if s.config.replays_enabled {
                    &&& final(self)@ == (ServerView { game: s.game.replayed(buf), ..s })
                    &&& final(write_buf)@ == overlay(buf, replay_bits(s.game))
                } else {
                    &&& final(self)@ == s
                    &&& final(write_buf)@ == buf
                }
            }),
            old(self)@.game.wf() ==> final(self)@.game.wf(),
    {
        reveal(HQMServer::state);
        proof {
            let s = self@;
            lemma_players_in_sync(s);
            assert forall|i: int| 0 <= i < self.players.players@.len() implies match #[trigger]
                slots_view(self.players.players@)[i] {
                Some(p) => {
                    &&& msgpos_valid(self.game_id, p)
                    &&& update_bits(self.game_id, self.game@, p).len() <= 8 * write_buf@.len()
                },
                None => true,
            } by {
                let slot = slots_view(self.players.players@)[i];
                assert(s.players[i] == slot);
                if let Some(p) = slot {
                    law_update_fits(self.game_id, self.game@, p);
                }
            }
        }
        let out = send_updates(self.game_id, &self.game, &self.players.players, write_buf);
        if self.config.replays_enabled {
            write_replay(&mut self.game, write_buf);
        }
        out
    }

    /// How many past steps there is room for.
    fn tick_capacity(&self) -> (capacity: usize)
        ensures
            self@.game.saved_ticks.len() <= capacity,
    {
        reveal(HQMServer::state);
        ticks_capacity(&self.game.saved_ticks)
    }
}

/// Handing out inputs keeps the game well-formed and the clients in step.
proof fn lemma_inputs_kept(s: ServerView)
    ensures
        s.game.wf() ==> s.with_inputs().game.wf(),
        s.in_sync() ==> s.with_inputs().in_sync(),
{
    reveal(ServerView::with_inputs);
    reveal(GameView::wf);
    reveal(ServerView::in_sync);
}

/// Remembering a step keeps the game well-formed and the clients in step.
proof fn lemma_stepped_kept(s: ServerView, now: u64, capacity: usize)
    ensures
        s.game.wf() ==> s.stepped(now, capacity).game.wf(),
        s.in_sync() ==> s.stepped(now, capacity).in_sync(),
        s.stepped(now, capacity).game.saved_ticks.len() > 0,
{
    reveal(ServerView::stepped);
    reveal(GameView::wf);
    reveal(ServerView::in_sync);
}

/// At the start of a game no client knows any message.
proof fn lemma_reset_kept(s: ServerView, game: GameView)
    ensures
        s.reset(game).in_sync(),
        s.reset(game).game == game,
{
    reveal(ServerView::reset);
    reveal(ServerView::in_sync);
}

/// Who may join has no part in the game and in what clients know.
proof fn lemma_joinable_kept(s: ServerView, allow_join: bool)
    ensures
        s.in_sync() ==> (ServerView { allow_join, ..s }).in_sync(),
{
    reveal(ServerView::in_sync);
}

/// What it means for each player that the clients are in step.
proof fn lemma_players_in_sync(s: ServerView)
    requires
        s.in_sync(),
    ensures
        forall|i: int|
            0 <= i < s.players.len() && (#[trigger] s.players[i]) is Some ==> msgpos_valid(
                s.game_id,
                s.players[i]->0,
            ),
{
    reveal(ServerView::in_sync);
}

/// One step later the game is still well-formed and the clients are in step.
pub proof fn lemma_aged_kept(s: ServerView)
    ensures
        s.game.wf() ==> s.aged().game.wf(),
        s.in_sync() ==> s.aged().in_sync(),
{
    reveal(ServerView::aged);
    reveal(ServerView::in_sync);
    reveal(GameView::wf);
    let t = s.aged();
    assert forall|i: int|
        s.in_sync() && 0 <= i < t.players.len() && (
        #[trigger] t.players[i]) is Some implies msgpos_valid(
        t.game_id,
        t.players[i]->0,
    ) by {
        assert(s.players[i] is Some);
    }
}

} // verus!
