//! The server: the players, the game they are in, and what they are told.
use crate::hqm_game::{
    lemma_messages_push, messages_view, share, share_all, GameView, HQMGame, HQMGameObject,
    HQMMessage, HQMPlacement, HQMSkater, HQMSkaterHand, HQMSpawnTable, HQMTeam, MessageView,
    WorldView,
};
use crate::players::{
    count_players, empty_slot, msgpos_valid, player_at, slot_of_addr, told_all, HQMConnectedPlayer,
    HQMIpAddr, HQMServerPlayerList, HQMSocketAddr, PlayerView,
};
use crate::search::{first_from, lemma_first_in_range};
use std::collections::HashSet;
use std::rc::Rc;
use vstd::prelude::*;

verus! {

/// Where a player enters the ice.
#[derive(Eq, PartialEq, Structural, Debug, Copy, Clone)]
pub enum HQMSpawnPoint {
    Center,
    Bench,
}

/// How the server is set up.
#[derive(Debug, Clone)]
pub struct HQMServerConfiguration {
    pub welcome: Vec<String>,
    pub password: String,
    pub player_max: usize,
    pub replays_enabled: bool,
    pub server_name: String,
}

/// The contents of an [`HQMServerConfiguration`].
pub struct ConfigView {
    pub welcome: Seq<Seq<char>>,
    pub password: Seq<char>,
    pub player_max: usize,
    pub replays_enabled: bool,
    pub server_name: Seq<char>,
}

impl View for HQMServerConfiguration {
    type V = ConfigView;

    open spec fn view(&self) -> ConfigView {
        ConfigView {
            welcome: self.welcome@.map_values(|line: String| line@),
            password: self.password@,
            player_max: self.player_max,
            replays_enabled: self.replays_enabled,
            server_name: self.server_name@,
        }
    }
}

/// The IP addresses that may not join.
pub struct HQMBanList {
    pub v4: HashSet<u32>,
    pub v6: HashSet<u128>,
}

impl View for HQMBanList {
    type V = Set<HQMIpAddr>;

    open spec fn view(&self) -> Set<HQMIpAddr> {
        Set::new(
            |ip: HQMIpAddr|
                match ip {
                    HQMIpAddr::V4(a) => self.v4@.contains(a),
                    HQMIpAddr::V6(a) => self.v6@.contains(a),
                },
        )
    }
}

impl HQMBanList {
    /// Nobody is banned.
    pub fn new() -> (list: Self)
        ensures
            list@ =~= Set::<HQMIpAddr>::empty(),
    {
        HQMBanList { v4: HashSet::new(), v6: HashSet::new() }
    }

    /// Whether an address is banned.
    pub fn contains(&self, ip: &HQMIpAddr) -> (r: bool)
        ensures
            r == self@.contains(*ip),
    {
        match ip {
            HQMIpAddr::V4(a) => self.v4.contains(a),
            HQMIpAddr::V6(a) => self.v6.contains(a),
        }
    }

    /// Bans an address.
    pub fn insert(&mut self, ip: HQMIpAddr)
        ensures
            final(self)@ =~= old(self)@.insert(ip),
    {
        match ip {
            HQMIpAddr::V4(a) => {
                self.v4.insert(a);
            },
            HQMIpAddr::V6(a) => {
                self.v6.insert(a);
            },
        }
    }

    /// Lifts all bans.
    pub fn clear(&mut self)
        ensures
            final(self)@ =~= Set::<HQMIpAddr>::empty(),
    {
        self.v4.clear();
        self.v6.clear();
    }
}

/// The server.
pub struct HQMServer {
    pub players: HQMServerPlayerList,
    pub ban_list: HQMBanList,
    pub allow_join: bool,
    pub config: HQMServerConfiguration,
    pub game: HQMGame,
    pub game_id: u32,
    pub is_muted: bool,
}

/// The contents of an [`HQMServer`].
pub struct ServerView {
    pub players: Seq<Option<PlayerView>>,
    pub ban_list: Set<HQMIpAddr>,
    pub allow_join: bool,
    pub config: ConfigView,
    pub game: GameView,
    pub game_id: u32,
    pub is_muted: bool,
}

impl HQMServer {
    /// The contents of the server.
    #[verifier::opaque]
    pub open spec fn state(self) -> ServerView {
        ServerView {
            players: self.players@,
            ban_list: self.ban_list@,
            allow_join: self.allow_join,
            config: self.config@,
            game: self.game@,
            game_id: self.game_id,
            is_muted: self.is_muted,
        }
    }
}

impl View for HQMServer {
    type V = ServerView;

    open spec fn view(&self) -> ServerView {
        self.state()
    }
}

/// The news that a player is in the server, on or off the ice, or has left it.
pub open spec fn player_news(
    player_index: usize,
    player_name: Seq<char>,
    object: Option<(usize, HQMTeam)>,
    in_server: bool,
) -> MessageView {
    MessageView::PlayerUpdate { player_name, object, player_index, in_server }
}

impl ServerView {
    /// The player in slot `i`.
    pub open spec fn player(self, i: usize) -> Option<PlayerView> {
        player_at(self.players, i as int)
    }

    /// The server with another player in slot `i`.
    pub open spec fn with_player(self, i: usize, player: PlayerView) -> Self {
        ServerView { players: self.players.update(i as int, Some(player)), ..self }
    }

    /// The server with other objects on the ice.
    pub open spec fn with_world(self, world: WorldView) -> Self {
        ServerView { game: GameView { world, ..self.game }, ..self }
    }

    /// No client in the current game has claimed to know messages that it was never sent.
    #[verifier::opaque]
    pub open spec fn in_sync(self) -> bool {
        forall|i: int|
            0 <= i < self.players.len() && (#[trigger] self.players[i]) is Some ==> msgpos_valid(
                self.game_id,
                self.players[i]->0,
            )
    }

    /// After a message to everybody. A persistent message is also kept for those
    /// who join later.
    #[verifier::opaque]
    pub open spec fn broadcast(self, message: MessageView, persistent: bool) -> Self {
        ServerView {
            players: told_all(self.players, message),
            game: GameView {
                replay_messages: self.game.replay_messages.push(message),
                persistent_messages: if persistent {
                    self.game.persistent_messages.push(message)
                } else {
                    self.game.persistent_messages
                },
                ..self.game
            },
            ..self
        }
    }

    /// After a chat message to everybody.
    pub open spec fn chat(self, sender: Option<usize>, message: Seq<char>) -> Self {
        self.broadcast(MessageView::Chat { player_index: sender, message }, false)
    }

    /// After a chat message to one player.
    #[verifier::opaque]
    pub open spec fn directed(
        self,
        receiver: usize,
        sender: Option<usize>,
        message: Seq<char>,
    ) -> Self {
        match self.player(receiver) {
            Some(player) => self.with_player(
                receiver,
                player.told(MessageView::Chat { player_index: sender, message }),
            ),
            None => self,
        }
    }

    /// After a chat message from the server to one player.
    pub open spec fn tell(self, receiver: usize, message: Seq<char>) -> Self {
        self.directed(receiver, None, message)
    }

    /// The welcome messages.
    pub open spec fn welcome(self) -> Seq<MessageView> {
        server_chats(self.config.welcome)
    }

    /// After a player has been given slot `i`.
    #[verifier::opaque]
    pub open spec fn with_new_player(self, i: usize, name: Seq<char>, addr: HQMSocketAddr) -> Self {
        let told = self.broadcast(player_news(i, name, None, true), true);
        told.with_player(
            i,
            PlayerView::joined(i, name, addr, told.game.persistent_messages + self.welcome()),
        )
    }

    /// Some player is an administrator.
    pub open spec fn has_admin(self) -> bool {
        exists|i: int|
            0 <= i < self.players.len() && (#[trigger] self.players[i]) is Some
                && self.players[i]->0.is_admin
    }

    /// After the player in slot `i`, if any, has left. When the last
    /// administrator leaves, players may join again.
    #[verifier::opaque]
    pub open spec fn without_player(self, i: usize) -> Self {
        match self.player(i) {
            Some(player) => {
                let told = self.with_world(self.game.world.without_skater(i)).broadcast(
                    player_news(i, player.player_name, None, false),
                    true,
                );
                let left = ServerView { players: told.players.update(i as int, None), ..told };
                ServerView {
                    allow_join: self.allow_join || (player.is_admin && !left.has_admin()),
                    ..left
                }
            },
            None => self,
        }
    }

    /// After player `i` has been taken off the ice.
    #[verifier::opaque]
    pub open spec fn spectating(self, i: usize) -> Self {
        match self.player(i) {
            Some(player) => if self.game.world.skater_slot(i) is Some {
                self.with_world(self.game.world.without_skater(i)).broadcast(
                    player_news(i, player.player_name, None, true),
                    true,
                )
            } else {
                self
            },
            None => self,
        }
    }

    /// After player `i` has been placed on the ice for `team`. A player who is
    /// on the ice already keeps the object slot; any other gets the first free
    /// one, and sees the game through their own eyes from now on.
    #[verifier::opaque]
    pub open spec fn on_ice(self, i: usize, team: HQMTeam, start: HQMPlacement) -> Self {
        match self.player(i) {
            Some(player) => {
                let skater = HQMGameObject::Player(
                    HQMSkater::fresh(team, start, player.hand, i, player.mass),
                );
                let world = self.game.world;
                match world.skater_slot(i) {
                    Some(slot) => self.with_world(world.with_object(slot, skater)).broadcast(
                        player_news(i, player.player_name, Some((slot, team)), true),
                        true,
                    ),
                    None => match world.free_slot() {
                        Some(slot) => self.with_world(world.with_object(slot, skater)).with_player(
                            i,
                            PlayerView { view_player_index: i, ..player },
                        ).broadcast(
                            player_news(i, player.player_name, Some((slot, team)), true),
                            true,
                        ),
                        None => self,
                    },
                }
            },
            None => self,
        }
    }

    /// Player `i` can be placed on the ice and is not on it yet.
    pub open spec fn enters_ice(self, i: usize) -> bool {
        &&& self.player(i) is Some
        &&& self.game.world.skater_slot(i) is None
        &&& self.game.world.free_slot() is Some
    }

    /// After player `i` has chosen a hand. During a period a skater on the ice keeps its hand.
    #[verifier::opaque]
    pub open spec fn with_hand(self, i: usize, hand: HQMSkaterHand) -> Self {
        match self.player(i) {
            Some(player) => {
                let chosen = self.with_player(i, PlayerView { hand, ..player });
                let world = self.game.world;
                match world.skater_slot(i) {
                    Some(slot) => if self.game.period != 0 {
                        chosen.tell(i, "Stick hand will change after next intermission"@)
                    } else {
                        chosen.with_world(
                            world.with_object(
                                slot,
                                HQMGameObject::Player(
                                    HQMSkater { hand, ..world.objects[slot as int]->Player_0 },
                                ),
                            ),
                        )
                    },
                    None => chosen,
                }
            },
            None => self,
        }
    }
}

/// A message to everybody keeps the game well-formed.
pub broadcast proof fn lemma_broadcast_wf(s: ServerView, message: MessageView, persistent: bool)
    ensures
        s.game.wf() ==> #[trigger] s.broadcast(message, persistent).game.wf(),
{
    reveal(GameView::wf);
    reveal(ServerView::broadcast);
}

/// Putting an object into a slot that was searched for keeps the number of slots.
proof fn lemma_slots_in_range(world: WorldView, i: usize)
    ensures
        world.skater_slot(i) matches Some(slot) ==> slot < world.objects.len(),
        world.free_slot() matches Some(slot) ==> slot < world.objects.len(),
        world.without_skater(i).objects.len() == world.objects.len(),
{
    lemma_first_in_range(world.objects, |o: HQMGameObject| o.is_skater_of(i), 0);
    lemma_first_in_range(world.objects, |o: HQMGameObject| o is Empty, world.puck_slots as int);
}

/// A message to one player leaves the game alone.
pub broadcast proof fn lemma_directed_game(
    s: ServerView,
    receiver: usize,
    sender: Option<usize>,
    message: Seq<char>,
)
    ensures
        #[trigger] s.directed(receiver, sender, message).game == s.game,
{
    reveal(ServerView::directed);
}

/// A player who joins keeps the game well-formed.
pub broadcast proof fn lemma_new_player_wf(
    s: ServerView,
    i: usize,
    name: Seq<char>,
    addr: HQMSocketAddr,
)
    ensures
        s.game.wf() ==> #[trigger] s.with_new_player(i, name, addr).game.wf(),
{
    reveal(GameView::wf);
    reveal(ServerView::with_new_player);
    lemma_broadcast_wf(s, player_news(i, name, None, true), true);
}

/// A player who leaves keeps the game well-formed.
pub broadcast proof fn lemma_without_player_wf(s: ServerView, i: usize)
    ensures
        s.game.wf() ==> #[trigger] s.without_player(i).game.wf(),
{
    reveal(GameView::wf);
    reveal(ServerView::without_player);
    lemma_slots_in_range(s.game.world, i);
    if let Some(player) = s.player(i) {
        lemma_broadcast_wf(
            s.with_world(s.game.world.without_skater(i)),
            player_news(i, player.player_name, None, false),
            true,
        );
    }
}

/// A player who leaves the ice keeps the game well-formed.
pub broadcast proof fn lemma_spectating_wf(s: ServerView, i: usize)
    ensures
        s.game.wf() ==> #[trigger] s.spectating(i).game.wf(),
{
    reveal(GameView::wf);
    reveal(ServerView::spectating);
    lemma_slots_in_range(s.game.world, i);
    if let Some(player) = s.player(i) {
        lemma_broadcast_wf(
            s.with_world(s.game.world.without_skater(i)),
            player_news(i, player.player_name, None, true),
            true,
        );
    }
}

/// A player who is placed on the ice keeps the game well-formed.
pub broadcast proof fn lemma_on_ice_wf(s: ServerView, i: usize, team: HQMTeam, start: HQMPlacement)
    ensures
        s.game.wf() ==> #[trigger] s.on_ice(i, team, start).game.wf(),
{
    reveal(GameView::wf);
    broadcast use lemma_broadcast_wf;

    reveal(ServerView::on_ice);
    lemma_slots_in_range(s.game.world, i);
}

/// A player who chooses a hand keeps the game well-formed.
pub broadcast proof fn lemma_with_hand_wf(s: ServerView, i: usize, hand: HQMSkaterHand)
    ensures
        s.game.wf() ==> #[trigger] s.with_hand(i, hand).game.wf(),
{
    reveal(GameView::wf);
    broadcast use lemma_directed_game;

    reveal(ServerView::with_hand);
    lemma_slots_in_range(s.game.world, i);
}

/// What the operations on the server do to the game.
pub broadcast group group_game_wf {
    lemma_broadcast_wf,
    lemma_directed_game,
    lemma_new_player_wf,
    lemma_without_player_wf,
    lemma_spectating_wf,
    lemma_on_ice_wf,
    lemma_with_hand_wf,
}

/// A message to everybody keeps the clients in step.
pub broadcast proof fn lemma_broadcast_sync(s: ServerView, message: MessageView, persistent: bool)
    ensures
        s.in_sync() ==> #[trigger] s.broadcast(message, persistent).in_sync(),
{
    reveal(ServerView::in_sync);
    reveal(ServerView::broadcast);
    let t = s.broadcast(message, persistent);
    assert forall|i: int|
        s.in_sync() && 0 <= i < t.players.len() && (
        #[trigger] t.players[i]) is Some implies msgpos_valid(t.game_id, t.players[i]->0) by {
        assert(s.players[i] is Some);
    }
}

/// A message to one player keeps the clients in step.
pub broadcast proof fn lemma_directed_sync(
    s: ServerView,
    receiver: usize,
    sender: Option<usize>,
    message: Seq<char>,
)
    ensures
        s.in_sync() ==> #[trigger] s.directed(receiver, sender, message).in_sync(),
{
    reveal(ServerView::in_sync);
    reveal(ServerView::directed);
}

/// A player who joins is in step.
pub broadcast proof fn lemma_new_player_sync(
    s: ServerView,
    i: usize,
    name: Seq<char>,
    addr: HQMSocketAddr,
)
    ensures
        s.in_sync() && i < s.players.len() ==> #[trigger] s.with_new_player(
            i,
            name,
            addr,
        ).in_sync(),
{
    reveal(ServerView::in_sync);
    reveal(ServerView::broadcast);
    reveal(ServerView::with_new_player);
    lemma_broadcast_sync(s, player_news(i, name, None, true), true);
}

/// A player who leaves keeps the other clients in step.
pub broadcast proof fn lemma_without_player_sync(s: ServerView, i: usize)
    ensures
        s.in_sync() ==> #[trigger] s.without_player(i).in_sync(),
{
    reveal(ServerView::in_sync);
    reveal(ServerView::broadcast);
    reveal(ServerView::without_player);
    if let Some(player) = s.player(i) {
        let t = s.with_world(s.game.world.without_skater(i));
        assert(s.in_sync() ==> t.in_sync());
        lemma_broadcast_sync(t, player_news(i, player.player_name, None, false), true);
    }
}

/// A player who leaves the ice keeps the clients in step.
pub broadcast proof fn lemma_spectating_sync(s: ServerView, i: usize)
    ensures
        s.in_sync() ==> #[trigger] s.spectating(i).in_sync(),
{
    reveal(ServerView::in_sync);
    reveal(ServerView::spectating);
    if let Some(player) = s.player(i) {
        let t = s.with_world(s.game.world.without_skater(i));
        assert(s.in_sync() ==> t.in_sync());
        lemma_broadcast_sync(t, player_news(i, player.player_name, None, true), true);
    }
}

/// A player who is placed on the ice keeps the clients in step.
pub broadcast proof fn lemma_on_ice_sync(
    s: ServerView,
    i: usize,
    team: HQMTeam,
    start: HQMPlacement,
)
    ensures
        s.in_sync() ==> #[trigger] s.on_ice(i, team, start).in_sync(),
{
    reveal(ServerView::in_sync);
    broadcast use lemma_broadcast_sync;

    reveal(ServerView::on_ice);
}

/// A player who chooses a hand keeps the clients in step.
pub broadcast proof fn lemma_with_hand_sync(s: ServerView, i: usize, hand: HQMSkaterHand)
    ensures
        s.in_sync() ==> #[trigger] s.with_hand(i, hand).in_sync(),
{
    reveal(ServerView::in_sync);
    broadcast use lemma_directed_sync;

    reveal(ServerView::with_hand);
}

/// What the operations on the server do to the clients' claims.
pub broadcast group group_in_sync {
    lemma_broadcast_sync,
    lemma_directed_sync,
    lemma_new_player_sync,
    lemma_without_player_sync,
    lemma_spectating_sync,
    lemma_on_ice_sync,
    lemma_with_hand_sync,
}

/// Chat messages from the server.
pub open spec fn server_chats(lines: Seq<Seq<char>>) -> Seq<MessageView> {
    lines.map_values(|line: Seq<char>| MessageView::Chat { player_index: None, message: line })
}

/// Adds chat messages from the server to a list of messages.
fn push_chats(messages: &mut Vec<Rc<HQMMessage>>, lines: &Vec<String>)
    ensures
        messages_view(final(messages)@) =~= messages_view(old(messages)@) + server_chats(
            lines@.map_values(|line: String| line@),
        ),
{
    broadcast use lemma_messages_push;

    let ghost pre = messages_view(messages@);
    let ghost chats = server_chats(lines@.map_values(|line: String| line@));
    let mut i: usize = 0;
    while i < lines.len()
        invariant
            i <= lines@.len(),
            chats == server_chats(lines@.map_values(|line: String| line@)),
            messages_view(messages@) =~= pre + chats.take(i as int),
        decreases lines@.len() - i,
    {
        let message = HQMMessage::Chat { player_index: None, message: lines[i].clone() };
        assert(message@ == chats[i as int]);
        let ghost before = messages_view(messages@);
        messages.push(Rc::new(message));
        assert(messages_view(messages@) == before.push(chats[i as int]));
        assert(before.push(chats[i as int]) =~= pre + chats.take(i + 1));
        i = i + 1;
    }
}

/// The place where a player of a team enters the ice.
pub open spec fn spawn_placement(
    spawns: HQMSpawnTable,
    team: HQMTeam,
    spawn_point: HQMSpawnPoint,
) -> HQMPlacement {
    match (team, spawn_point) {
        (HQMTeam::Red, HQMSpawnPoint::Center) => spawns.red_center,
        (HQMTeam::Red, HQMSpawnPoint::Bench) => spawns.red_bench,
        (HQMTeam::Blue, HQMSpawnPoint::Center) => spawns.blue_center,
        (HQMTeam::Blue, HQMSpawnPoint::Bench) => spawns.blue_bench,
    }
}

impl HQMServer {
    /// A server without players, in its first game.
    pub fn new(config: HQMServerConfiguration, game: HQMGame, slots: usize) -> (server: Self)
        ensures
            server@ == (ServerView {
                players: Seq::new(slots as nat, |i: int| None::<PlayerView>),
                ban_list: Set::empty(),
                allow_join: true,
                config: config@,
                game: game@,
                game_id: 1,
                is_muted: false,
            }),
    {
        reveal(HQMServer::state);
        HQMServer {
            players: HQMServerPlayerList::new(slots),
            ban_list: HQMBanList::new(),
            allow_join: true,
            game,
            is_muted: false,
            config,
            game_id: 1,
        }
    }

    /// The player in a slot.
    pub fn get_player(&self, player_index: usize) -> (r: Option<&HQMConnectedPlayer>)
        ensures
            match r {
                Some(p) => self@.player(player_index) == Some(p@),
                None => self@.player(player_index) is None,
            },
    {
        reveal(HQMServer::state);
        self.players.get(player_index)
    }

    /// The slot of the skater of a player.
    pub(crate) fn find_skater(&self, player_index: usize) -> (slot: Option<usize>)
        ensures
            self@.game.world.objects.len() <= usize::MAX,
            slot == self@.game.world.skater_slot(player_index),
            slot matches Some(i) ==> i < self@.game.world.objects.len(),
            slot matches Some(i) ==> self@.game.world.objects[i as int].is_skater_of(player_index),
    {
        reveal(HQMServer::state);
        assert(self.game.world.objects.len() <= usize::MAX);
        self.game.world.find_skater(player_index)
    }

    /// The number of player slots.
    pub(crate) fn slots(&self) -> (n: usize)
        ensures
            n == self@.players.len(),
    {
        reveal(HQMServer::state);
        self.players.len()
    }

    /// The object in an object slot.
    pub(crate) fn object(&self, slot: usize) -> (object: HQMGameObject)
        requires
            slot < self@.game.world.objects.len(),
        ensures
            object == self@.game.world.objects[slot as int],
    {
        reveal(HQMServer::state);
        self.game.world.objects[slot]
    }

    /// The places where players enter the ice.
    fn spawns(&self) -> (spawns: HQMSpawnTable)
        ensures
            spawns == self@.game.world.spawns,
    {
        reveal(HQMServer::state);
        self.game.world.spawns
    }

    /// The period that is being played.
    fn period(&self) -> (period: u32)
        ensures
            period == self@.game.period,
    {
        reveal(HQMServer::state);
        self.game.period
    }

    /// The number of connected players.
    pub fn player_count(&self) -> (n: usize)
        ensures
            n == count_players(self@.players),
            n <= self@.players.len(),
    {
        let ghost slots = self@.players;
        let n: usize = self.slots();
        let mut player_count: usize = 0;
        let mut i: usize = 0;
        assert(slots.take(0) =~= Seq::<Option<PlayerView>>::empty());
        while i < n
            invariant
                i <= n,
                n == slots.len(),
                slots == self@.players,
                player_count <= i,
                player_count == count_players(slots.take(i as int)),
            decreases slots.len() - i,
        {
            assert(slots.take(i + 1).drop_last() =~= slots.take(i as int));
            if self.get_player(i).is_some() {
                player_count = player_count + 1;
            }
            i = i + 1;
        }
        assert(slots.take(slots.len() as int) =~= slots);
        player_count
    }

    /// The slot of the player who sends from `addr`.
    pub fn find_player_slot(&self, addr: HQMSocketAddr) -> (slot: Option<usize>)
        ensures
            slot == slot_of_addr(self@.players, addr),
            slot matches Some(i) ==> i < self@.players.len() && self@.players[i as int] is Some
                && self@.players[i as int]->0.addr == addr,
    {
        let ghost slots = self@.players;
        let ghost p = |p: Option<PlayerView>| p is Some && p->0.addr == addr;
        let mut i: usize = 0;
        while i < self.slots()
            invariant
                i <= slots.len(),
                slots == self@.players,
                p == (|p: Option<PlayerView>| p is Some && p->0.addr == addr),
                slot_of_addr(slots, addr) == first_from(slots, p, i as int),
            decreases slots.len() - i,
        {
            if let Some(player) = self.get_player(i) {
                if player.addr == addr {
                    return Some(i);
                }
            }
            i = i + 1;
        }
        None
    }

    /// The first slot that is free.
    pub fn find_empty_player_slot(&self) -> (slot: Option<usize>)
        ensures
            slot == empty_slot(self@.players),
            slot matches Some(i) ==> i < self@.players.len() && self@.players[i as int] is None,
    {
        let ghost slots = self@.players;
        let ghost p = |p: Option<PlayerView>| p is None;
        let mut i: usize = 0;
        while i < self.slots()
            invariant
                i <= slots.len(),
                slots == self@.players,
                p == (|p: Option<PlayerView>| p is None),
                empty_slot(slots) == first_from(slots, p, i as int),
            decreases slots.len() - i,
        {
            if self.get_player(i).is_none() {
                return Some(i);
            }
            i = i + 1;
        }
        None
    }

    /// Sends a message to everybody.
    pub fn add_global_message(&mut self, message: HQMMessage, persistent: bool)
        ensures
            final(self)@ == old(self)@.broadcast(message@, persistent),
    {
        reveal(ServerView::broadcast);
        broadcast use lemma_messages_push;

        reveal(HQMServer::state);
        let rc = Rc::new(message);
        self.game.replay_messages.push(share(&rc));
        if persistent {
            self.game.persistent_messages.push(share(&rc));
        }
        self.players.tell_all(&rc);
    }

    /// Sends a chat message from a player to everybody.
    pub fn add_user_chat_message(&mut self, message: &str, sender_index: usize)
        ensures
            final(self)@ == (if old(self)@.player(sender_index) is Some {
                old(self)@.chat(Some(sender_index), message@)
            } else {
                old(self)@
            }),
    {
        if self.get_player(sender_index).is_some() {
            let chat = HQMMessage::Chat {
                player_index: Some(sender_index),
                message: message.to_owned(),
            };
            self.add_global_message(chat, false);
        }
    }

    /// Sends a chat message from the server to everybody.
    pub fn add_server_chat_message(&mut self, message: &str)
        ensures
            final(self)@ == old(self)@.chat(None, message@),
    {
        let chat = HQMMessage::Chat { player_index: None, message: message.to_owned() };
        self.add_global_message(chat, false);
    }

    /// Sends a chat message to one player.
    pub fn add_directed_chat_message(
        &mut self,
        message: &str,
        receiver_index: usize,
        sender_index: Option<usize>,
    )
        ensures
            final(self)@ == old(self)@.directed(receiver_index, sender_index, message@),
    {
        reveal(ServerView::directed);
        reveal(HQMServer::state);
        if let Some(player) = self.players.get_mut(receiver_index) {
            player.add_directed_user_chat_message2(message, sender_index);
        }
    }

    /// Sends a chat message from one player to another.
    pub fn add_directed_user_chat_message(
        &mut self,
        message: &str,
        receiver_index: usize,
        sender_index: usize,
    )
        ensures
            final(self)@ == old(self)@.directed(receiver_index, Some(sender_index), message@),
    {
        self.add_directed_chat_message(message, receiver_index, Some(sender_index));
    }

    /// Sends a chat message from the server to one player.
    pub fn add_directed_server_chat_message(&mut self, message: &str, receiver_index: usize)
        ensures
            final(self)@ == old(self)@.tell(receiver_index, message@),
    {
        self.add_directed_chat_message(message, receiver_index, None);
    }

    /// Announces a goal.
    pub fn add_goal_message(
        &mut self,
        team: HQMTeam,
        goal_player_index: Option<usize>,
        assist_player_index: Option<usize>,
    )
        ensures
            final(self)@ == old(self)@.broadcast(
                MessageView::Goal { team, goal_player_index, assist_player_index },
                true,
            ),
    {
        let message = HQMMessage::Goal { team, goal_player_index, assist_player_index };
        self.add_global_message(message, true);
    }

    /// Gives a player the first free slot, announces them, and hands them all
    /// that they have to know of the game so far.
    pub fn add_player(&mut self, player_name: String, addr: HQMSocketAddr) -> (slot: Option<usize>)
        ensures
            slot == empty_slot(old(self)@.players),
            slot matches Some(i) ==> i < old(self)@.players.len(),
            final(self)@ == (match slot {
                Some(i) => old(self)@.with_new_player(i, player_name@, addr),
                None => old(self)@,
            }),
    {
        reveal(ServerView::broadcast);
        reveal(ServerView::with_new_player);
        match self.find_empty_player_slot() {
            Some(player_index) => {
                self.announce(player_index, player_name.clone(), None, true);
                let messages = self.first_messages();
                let new_player = HQMConnectedPlayer::new(player_index, player_name, addr, messages);
                self.put_player(player_index, new_player);
                Some(player_index)
            },
            None => None,
        }
    }

    /// What a player who joins now is told: the persistent messages, then the welcome messages.
    fn first_messages(&self) -> (messages: Vec<Rc<HQMMessage>>)
        ensures
            messages_view(messages@) == self@.game.persistent_messages + self@.welcome(),
    {
        reveal(HQMServer::state);
        let mut messages = share_all(&self.game.persistent_messages);
        push_chats(&mut messages, &self.config.welcome);
        messages
    }

    /// Puts an object into an object slot.
    pub(crate) fn set_object(&mut self, slot: usize, object: HQMGameObject)
        requires
            slot < old(self)@.game.world.objects.len(),
        ensures
            final(self)@ == old(self)@.with_world(old(self)@.game.world.with_object(slot, object)),
    {
        reveal(HQMServer::state);
        self.game.world.objects.set(slot, object);
    }

    /// Announces a player.
    pub(crate) fn announce(
        &mut self,
        player_index: usize,
        player_name: String,
        object: Option<(usize, HQMTeam)>,
        in_server: bool,
    )
        ensures
            final(self)@ == old(self)@.broadcast(
                player_news(player_index, player_name@, object, in_server),
                true,
            ),
    {
        self.add_global_message(
            HQMMessage::PlayerUpdate { player_name, object, player_index, in_server },
            true,
        );
    }

    /// Sets the player whose view a player sees.
    pub(crate) fn set_view(&mut self, player_index: usize, view_player_index: usize)
        requires
            old(self)@.player(player_index) is Some,
        ensures
            final(self)@ == old(self)@.with_player(
                player_index,
                PlayerView { view_player_index, ..old(self)@.player(player_index)->0 },
            ),
    {
        reveal(HQMServer::state);
        if let Some(player) = self.players.get_mut(player_index) {
            player.view_player_index = view_player_index;
        }
    }

    /// Places the skater of a player in the first free object slot.
    fn create_skater(
        &mut self,
        team: HQMTeam,
        start: HQMPlacement,
        hand: HQMSkaterHand,
        player_index: usize,
        mass: u32,
    ) -> (slot: Option<usize>)
        ensures
            slot == old(self)@.game.world.free_slot(),
            final(self)@ == (match slot {
                Some(i) => old(self)@.with_world(
                    old(self)@.game.world.with_object(
                        i,
                        HQMGameObject::Player(
                            HQMSkater::fresh(team, start, hand, player_index, mass),
                        ),
                    ),
                ),
                None => old(self)@,
            }),
    {
        reveal(HQMServer::state);
        self.game.world.create_player_object(team, start, hand, player_index, mass)
    }

    /// Takes the skater of a player off the ice.
    fn remove_skater(&mut self, player_index: usize) -> (slot: Option<usize>)
        ensures
            slot == old(self)@.game.world.skater_slot(player_index),
            final(self)@ == old(self)@.with_world(
                old(self)@.game.world.without_skater(player_index),
            ),
    {
        reveal(HQMServer::state);
        self.game.world.remove_player(player_index)
    }

    /// Puts a player into a slot.
    fn put_player(&mut self, player_index: usize, player: HQMConnectedPlayer)
        requires
            player_index < old(self)@.players.len(),
        ensures
            final(self)@ == old(self)@.with_player(player_index, player@),
    {
        reveal(HQMServer::state);
        self.players.add_player(player_index, player);
    }

    /// Empties a slot.
    fn clear_slot(&mut self, player_index: usize)
        requires
            player_index < old(self)@.players.len(),
        ensures
            final(self)@ == (ServerView {
                players: old(self)@.players.update(player_index as int, None),
                ..old(self)@
            }),
    {
        reveal(HQMServer::state);
        self.players.remove_player(player_index);
    }

    /// Lets players join, or not.
    pub(crate) fn set_joinable(&mut self, allow_join: bool)
        ensures
            final(self)@ == (ServerView { allow_join, ..old(self)@ }),
    {
        reveal(HQMServer::state);
        self.allow_join = allow_join;
    }

    /// Whether some player is an administrator.
    fn any_admin(&self) -> (r: bool)
        ensures
            r == self@.has_admin(),
    {
        let n: usize = self.slots();
        let ghost slots = self@.players;
        let mut i: usize = 0;
        while i < n
            invariant
                i <= n == slots.len(),
                slots == self@.players,
                forall|j: int|
                    0 <= j < i && (#[trigger] slots[j]) is Some ==> !slots[j]->0.is_admin,
            decreases n - i,
        {
            if let Some(player) = self.get_player(i) {
                if player.is_admin {
                    assert(slots[i as int] is Some);
                    return true;
                }
            }
            i = i + 1;
        }
        false
    }

    /// Removes a player, and their skater, from the server.
    pub fn remove_player(&mut self, player_index: usize)
        ensures
            final(self)@ == old(self)@.without_player(player_index),
    {
        reveal(ServerView::broadcast);
        reveal(ServerView::without_player);
        let (player_name, is_admin) = match self.get_player(player_index) {
            Some(player) => (player.player_name.clone(), player.is_admin),
            None => {
                return ;
            },
        };
        let _slot: Option<usize> = self.remove_skater(player_index);
        self.announce(player_index, player_name, None, false);
        self.clear_slot(player_index);
        if is_admin && !self.any_admin() {
            self.set_joinable(true);
        }
    }

    /// Takes a player off the ice. Returns whether they were on it.
    pub fn move_to_spectator(&mut self, player_index: usize) -> (r: bool)
        ensures
            r == (old(self)@.player(player_index) is Some && old(
                self,
            )@.game.world.skater_slot(player_index) is Some),
            final(self)@ == old(self)@.spectating(player_index),
    {
        reveal(ServerView::spectating);
        let player_name = match self.get_player(player_index) {
            Some(player) => player.player_name.clone(),
            None => {
                return false;
            },
        };
        if self.find_skater(player_index).is_some() {
            let _slot: Option<usize> = self.remove_skater(player_index);
            self.announce(player_index, player_name, None, true);
            return true;
        }
        false
    }

    /// Places a player on the ice where their team enters it. Returns whether
    /// they were not on the ice before and now are.
    pub fn move_to_team_spawnpoint(
        &mut self,
        player_index: usize,
        team: HQMTeam,
        spawn_point: HQMSpawnPoint,
    ) -> (r: bool)
        ensures
            r == old(self)@.enters_ice(player_index),
            final(self)@ == old(self)@.on_ice(
                player_index,
                team,
                spawn_placement(old(self)@.game.world.spawns, team, spawn_point),
            ),
    {
        let spawns = self.spawns();
        let start = match team {
            HQMTeam::Red => match spawn_point {
                HQMSpawnPoint::Center => spawns.red_center,
                HQMSpawnPoint::Bench => spawns.red_bench,
            },
            HQMTeam::Blue => match spawn_point {
                HQMSpawnPoint::Center => spawns.blue_center,
                HQMSpawnPoint::Bench => spawns.blue_bench,
            },
        };
        self.move_to_team(player_index, team, start)
    }

    /// Places a player on the ice. Returns whether they were not on the ice
    /// before and now are.
    pub fn move_to_team(
        &mut self,
        player_index: usize,
        team: HQMTeam,
        start: HQMPlacement,
    ) -> (r: bool)
        ensures
            r == old(self)@.enters_ice(player_index),
            final(self)@ == old(self)@.on_ice(player_index, team, start),
    {
        reveal(ServerView::on_ice);
        if self.get_player(player_index).is_none() {
            return false;
        }
        match self.find_skater(player_index) {
            Some(object_index) => {
                self.replace_skater(player_index, object_index, team, start);
                false
            },
            None => self.enter_ice(player_index, team, start),
        }
    }

    /// Places the skater of a player who is on the ice anew.
    fn replace_skater(
        &mut self,
        player_index: usize,
        object_index: usize,
        team: HQMTeam,
        start: HQMPlacement,
    )
        requires
            old(self)@.player(player_index) is Some,
            old(self)@.game.world.skater_slot(player_index) == Some(object_index),
            object_index < old(self)@.game.world.objects.len(),
        ensures
            final(self)@ == old(self)@.on_ice(player_index, team, start),
    {
        reveal(ServerView::on_ice);
        if let Some(player) = self.get_player(player_index) {
            let player_name = player.player_name.clone();
            let skater = HQMSkater::new(team, start, player.hand, player_index, player.mass);
            self.set_object(object_index, HQMGameObject::Player(skater));
            self.announce(player_index, player_name, Some((object_index, team)), true);
        }
    }

    /// Places a skater for a player who is not on the ice.
    fn enter_ice(&mut self, player_index: usize, team: HQMTeam, start: HQMPlacement) -> (r: bool)
        requires
            old(self)@.player(player_index) is Some,
            old(self)@.game.world.skater_slot(player_index) is None,
        ensures
            r == old(self)@.game.world.free_slot() is Some,
            final(self)@ == old(self)@.on_ice(player_index, team, start),
    {
        reveal(ServerView::on_ice);
        if let Some(player) = self.get_player(player_index) {
            let hand = player.hand;
            let mass: u32 = player.mass;
            match self.create_skater(team, start, hand, player_index, mass) {
                Some(object_index) => {
                    assert(self@.player(player_index) == old(self)@.player(player_index));
                    self.show_on_ice(player_index, object_index, team);
                    true
                },
                None => false,
            }
        } else {
            false
        }
    }

    /// Lets a player see through their own eyes and announces that they are on the ice.
    fn show_on_ice(&mut self, player_index: usize, object_index: usize, team: HQMTeam)
        requires
            old(self)@.player(player_index) is Some,
        ensures
            final(self)@ == old(self)@.with_player(
                player_index,
                PlayerView {
                    view_player_index: player_index,
                    ..old(self)@.player(player_index)->0
                },
            ).broadcast(
                player_news(
                    player_index,
                    old(self)@.player(player_index)->0.player_name,
                    Some((object_index, team)),
                    true,
                ),
                true,
            ),
    {
        if let Some(player) = self.get_player(player_index) {
            let player_name = player.player_name.clone();
            self.set_view(player_index, player_index);
            self.announce(player_index, player_name, Some((object_index, team)), true);
        }
    }

    /// Lets a player choose the hand that holds the stick.
    pub fn set_hand(&mut self, hand: HQMSkaterHand, player_index: usize)
        ensures
            final(self)@ == old(self)@.with_hand(player_index, hand),
    {
        reveal(ServerView::with_hand);
        if self.get_player(player_index).is_none() {
            return ;
        }
        self.set_player_hand(player_index, hand);
        if let Some(slot) = self.find_skater(player_index) {
            if self.period() != 0 {
                self.add_directed_server_chat_message(
                    "Stick hand will change after next intermission",
                    player_index,
                );
                return ;
            }
            if let HQMGameObject::Player(skater) = self.object(slot) {
                let mut skater = skater;
                skater.hand = hand;
                self.set_object(slot, HQMGameObject::Player(skater));
            }
        }
    }

    fn set_player_hand(&mut self, player_index: usize, hand: HQMSkaterHand)
        requires
            old(self)@.player(player_index) is Some,
        ensures
            final(self)@ == old(self)@.with_player(
                player_index,
                PlayerView { hand, ..old(self)@.player(player_index)->0 },
            ),
    {
        reveal(HQMServer::state);
        if let Some(player) = self.players.get_mut(player_index) {
            player.hand = hand;
        }
    }
}

} // verus!
