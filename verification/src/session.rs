//! What clients send, and what the server makes of it.
use crate::answers::{lemma_answered_kept, lemma_commands_answer};
use crate::behaviour::HQMServerBehaviour;
use crate::bits::{align_pos, byte_count, pack, stream_byte, stream_value};
use crate::commands::{parse_admin_command, request_view, HQMRequest, RequestView};
use crate::hqm_game::{HQMPlayerInput, HQMSkaterHand};
use crate::hqm_parse::HQMMessageReader;
use crate::players::{
    count_players, empty_slot, msgpos_valid, slot_of_addr, HQMClientVersion, HQMConnectedPlayer,
    HQMMuteStatus, HQMSocketAddr, PlayerView,
};
use crate::server::{group_game_wf, group_in_sync, HQMServer, ServerView};
use crate::text::{
    argument_of, command_of, concat, get_player_name, is_command, parse_index, player_name_of,
    split_command, str_eq, string_from_utf8,
};
use crate::updates::{game_header, info_bits, write_info, GAME_VERSION};
use vstd::prelude::*;
use vstd::utf8::{decode_utf8, valid_utf8};

verus! {

/// What a client sends regularly.
#[derive(Debug)]
pub struct HQMClientUpdate {
    pub game_id: u32,
    pub input: HQMPlayerInput,
    pub deltatime: Option<u32>,
    pub known_packet: u32,
    pub known_msgpos: usize,
    /// The number and the text of a chat message.
    pub chat: Option<(u8, Vec<u8>)>,
}

/// The contents of an [`HQMClientUpdate`].
pub struct UpdateView {
    pub game_id: u32,
    pub input: HQMPlayerInput,
    pub deltatime: Option<u32>,
    pub known_packet: u32,
    pub known_msgpos: usize,
    pub chat: Option<(u8, Seq<u8>)>,
}

impl View for HQMClientUpdate {
    type V = UpdateView;

    open spec fn view(&self) -> UpdateView {
        UpdateView {
            game_id: self.game_id,
            input: self.input,
            deltatime: self.deltatime,
            known_packet: self.known_packet,
            known_msgpos: self.known_msgpos,
            chat: match self.chat {
                Some((rep, message)) => Some((rep, message@)),
                None => None,
            },
        }
    }
}

/// The `k`th 32-bit value from bit position `a` on.
pub open spec fn word_at(bytes: Seq<u8>, a: nat, k: nat) -> u32 {
    stream_value(bytes, a + 32 * k, 32) as u32
}

/// The bytes from the first byte boundary at or after bit position `p` on.
pub open spec fn bytes_at(bytes: Seq<u8>, p: nat, n: nat) -> Seq<u8> {
    Seq::new(n, |i: int| stream_byte(bytes, byte_count(p) + i))
}

/// What a client of some version says in the message `bytes`, from bit position `p` on.
pub open spec fn parsed_update(bytes: Seq<u8>, p: nat, version: HQMClientVersion) -> UpdateView {
    let a = align_pos(p);
    let q = if version.pings() {
        a + 352
    } else {
        a + 320
    };
    UpdateView {
        game_id: word_at(bytes, a, 0),
        input: parsed_input(bytes, a + 32),
        deltatime: if version.pings() {
            Some(word_at(bytes, a, 10))
        } else {
            None
        },
        known_packet: word_at(bytes, q, 0),
        known_msgpos: stream_value(bytes, q + 32, 16) as usize,
        chat: parsed_chat(bytes, q + 48),
    }
}

/// The bit position behind such an update.
pub open spec fn update_end(bytes: Seq<u8>, p: nat, version: HQMClientVersion) -> nat {
    let a = align_pos(p);
    chat_end(
        bytes,
        if version.pings() {
            a + 400
        } else {
            a + 368
        },
    )
}

/// The bit position behind the chat message, if any, at bit position `p`.
pub open spec fn chat_end(bytes: Seq<u8>, p: nat) -> nat {
    if stream_value(bytes, p, 1) == 1 {
        align_pos(p + 12) + 8 * stream_value(bytes, p + 4, 8)
    } else {
        p + 1
    }
}

/// The chat message, if any, from bit position `p` on.
pub open spec fn parsed_chat(bytes: Seq<u8>, p: nat) -> Option<(u8, Seq<u8>)> {
    if stream_value(bytes, p, 1) == 1 {
        Some(
            (
                stream_value(bytes, p + 1, 3) as u8,
                bytes_at(bytes, p + 12, stream_value(bytes, p + 4, 8)),
            ),
        )
    } else {
        None
    }
}

/// What a player does with the controls, from bit position `a` on.
pub open spec fn parsed_input(bytes: Seq<u8>, a: nat) -> HQMPlayerInput {
    HQMPlayerInput {
        stick_angle: word_at(bytes, a, 0),
        turn: word_at(bytes, a, 1),
        unknown: word_at(bytes, a, 2),
        fwbw: word_at(bytes, a, 3),
        stick: (word_at(bytes, a, 4), word_at(bytes, a, 5)),
        head_rot: word_at(bytes, a, 6),
        body_rot: word_at(bytes, a, 7),
        keys: word_at(bytes, a, 8),
    }
}

/// Reads what a player does with the controls.
fn read_input(reader: &mut HQMMessageReader) -> (input: HQMPlayerInput)
    requires
        old(reader).wf(),
        old(reader).at() % 8 == 0,
        old(reader).pos < usize::MAX - 64,
    ensures
        input == parsed_input(old(reader).buf@, old(reader).at()),
        final(reader).moved(*old(reader), old(reader).at() + 288),
{
    let ghost a = reader.at();
    let stick_angle: u32 = reader.read_f32_aligned();
    assert(reader.at() == a + 32);
    let turn: u32 = reader.read_f32_aligned();
    assert(reader.at() == a + 64);
    let unknown: u32 = reader.read_f32_aligned();
    assert(reader.at() == a + 96);
    let fwbw: u32 = reader.read_f32_aligned();
    assert(reader.at() == a + 128);
    let stick_rot_1: u32 = reader.read_f32_aligned();
    assert(reader.at() == a + 160);
    let stick_rot_2: u32 = reader.read_f32_aligned();
    assert(reader.at() == a + 192);
    let head_rot: u32 = reader.read_f32_aligned();
    assert(reader.at() == a + 224);
    let body_rot: u32 = reader.read_f32_aligned();
    assert(reader.at() == a + 256);
    let keys: u32 = reader.read_u32_aligned();
    HQMPlayerInput {
        stick_angle,
        turn,
        unknown,
        fwbw,
        stick: (stick_rot_1, stick_rot_2),
        head_rot,
        body_rot,
        keys,
    }
}

/// Reads a chat message, if there is one.
fn read_chat(reader: &mut HQMMessageReader) -> (chat: Option<(u8, Vec<u8>)>)
    requires
        old(reader).wf(),
        old(reader).pos < usize::MAX - 300,
    ensures
        match chat {
            Some((rep, message)) => parsed_chat(old(reader).buf@, old(reader).at()) == Some(
                (rep, message@),
            ),
            None => parsed_chat(old(reader).buf@, old(reader).at()) is None,
        },
        final(reader).moved(*old(reader), chat_end(old(reader).buf@, old(reader).at())),
{
    let ghost bytes = reader.buf@;
    let ghost p = reader.at();
    proof {
        vstd::arithmetic::power2::lemma2_to64();
    }
    let has_chat_msg: bool = reader.read_bits(1) == 1;
    if has_chat_msg {
        let rep: u8 = reader.read_bits(3) as u8;
        let byte_num: usize = reader.read_bits(8) as usize;
        let message = reader.read_bytes_aligned(byte_num);
        assert(message@ =~= bytes_at(bytes, p + 12, stream_value(bytes, p + 4, 8)));
        Some((rep, message))
    } else {
        None
    }
}

/// Reads what a client says.
pub fn read_update(reader: &mut HQMMessageReader, version: HQMClientVersion) -> (u: HQMClientUpdate)
    requires
        old(reader).wf(),
        old(reader).pos < usize::MAX - 512,
    ensures
        u@ == parsed_update(old(reader).buf@, old(reader).at(), version),
        final(reader).moved(*old(reader), update_end(old(reader).buf@, old(reader).at(), version)),
{
    let ghost a = align_pos(reader.at());
    let game_id: u32 = reader.read_u32_aligned();
    assert(reader.at() == a + 32);
    let input = read_input(reader);
    assert(reader.at() == a + 320);
    let deltatime: Option<u32> = if version.has_ping() {
        Some(reader.read_u32_aligned())
    } else {
        None
    };
    let ghost q = reader.at();
    assert(q == if version.pings() {
        a + 352
    } else {
        a + 320
    });
    let known_packet: u32 = reader.read_u32_aligned();
    assert(reader.at() == q + 32);
    let known_msgpos: usize = reader.read_u16_aligned() as usize;
    assert(reader.at() == q + 48);
    let chat = read_chat(reader);
    HQMClientUpdate { game_id, input, deltatime, known_packet, known_msgpos, chat }
}

/// How many round-trip times are kept.
pub const MAX_PINGS: usize = 100;

/// The time since the server sent the step that a client has just received,
/// if the client did not know it before and the server still does.
pub open spec fn ping_sample(s: ServerView, player: PlayerView, u: UpdateView, now: u64) -> Option<
    u64,
> {
    let diff = s.game.packet - u.known_packet;
    if player.game_id == u.game_id && player.known_packet < u.known_packet && 0 <= diff
        < s.game.saved_ticks.len() && s.game.saved_ticks[diff].time <= now {
        Some((now - s.game.saved_ticks[diff].time) as u64)
    } else {
        None
    }
}

/// Round-trip times with a new one. The oldest go.
pub open spec fn with_ping(pings: Seq<u64>, sample: Option<u64>) -> Seq<u64> {
    match sample {
        Some(d) => seq![d] + (if pings.len() < MAX_PINGS {
            pings
        } else {
            pings.take(MAX_PINGS - 1)
        }),
        None => pings,
    }
}

/// A player after their client has been heard of, but for the chat.
pub open spec fn updated_player(
    player: PlayerView,
    u: UpdateView,
    version: HQMClientVersion,
    sample: Option<u64>,
) -> PlayerView {
    PlayerView {
        inactivity: 0,
        client_version: version,
        known_packet: u.known_packet,
        input: u.input,
        game_id: u.game_id,
        known_msgpos: u.known_msgpos,
        deltatime: match u.deltatime {
            Some(d) => d,
            None => player.deltatime,
        },
        last_ping: with_ping(player.last_ping, sample),
        ..player
    }
}

/// The chat message of an update, if it is a new one.
pub open spec fn new_chat(player: PlayerView, u: UpdateView) -> Option<(u8, Seq<u8>)> {
    match u.chat {
        Some((rep, message)) => if player.chat_rep != Some(rep) {
            Some((rep, message))
        } else {
            None
        },
        None => None,
    }
}

impl ServerView {
    /// After the client of player `i` has been heard of, but for what the chat
    /// message says.
    pub open spec fn after_update(
        self,
        i: usize,
        u: UpdateView,
        version: HQMClientVersion,
        now: u64,
    ) -> Self {
        let player = self.player(i)->0;
        let updated = updated_player(player, u, version, ping_sample(self, player, u, now));
        self.with_player(
            i,
            PlayerView {
                chat_rep: match new_chat(player, u) {
                    Some((rep, _)) => Some(rep),
                    None => player.chat_rep,
                },
                ..updated
            },
        )
    }

    /// An update from `addr` does not claim that its client, if it is in the
    /// current game, knows messages that it was never sent.
    pub open spec fn honest(self, addr: HQMSocketAddr, u: UpdateView) -> bool {
        match slot_of_addr(self.players, addr) {
            Some(i) => u.game_id == self.game_id ==> u.known_msgpos <= self.player(
                i,
            )->0.messages.len(),
            None => true,
        }
    }

    /// After player `i` has said something. What a muted player says is not
    /// heard; what a shadow-muted player says only they see.
    pub open spec fn after_chat(self, i: usize, line: Seq<char>) -> Self {
        match self.player(i) {
            Some(player) => if self.is_muted {
                self
            } else {
                match player.is_muted {
                    HQMMuteStatus::NotMuted => self.chat(Some(i), line),
                    HQMMuteStatus::ShadowMuted => self.directed(i, Some(i), line),
                    HQMMuteStatus::Muted => self,
                }
            },
            None => self,
        }
    }

    /// How far a request to join from bit position `p` on is read.
    pub open spec fn join_end(self, addr: HQMSocketAddr, bytes: Seq<u8>, p: nat) -> nat {
        if count_players(self.players) >= self.config.player_max {
            p
        } else if stream_value(bytes, p, 8) != GAME_VERSION || slot_of_addr(
            self.players,
            addr,
        ) is Some || self.ban_list.contains(addr.ip) || !self.allow_join {
            p + 8
        } else {
            align_pos(p + 8) + 256
        }
    }

    /// The name under which a client may join. There is none if the server is
    /// full, the client speaks another version of the protocol, is connected
    /// already, is banned, joining is disabled, or the name is not valid.
    pub open spec fn join_name(self, addr: HQMSocketAddr, bytes: Seq<u8>, p: nat) -> Option<
        Seq<char>,
    > {
        if count_players(self.players) < self.config.player_max && stream_value(bytes, p, 8)
            == GAME_VERSION && slot_of_addr(self.players, addr) is None && !self.ban_list.contains(
            addr.ip,
        ) && self.allow_join {
            player_name_of(bytes_at(bytes, p + 8, 32))
        } else {
            None
        }
    }
}

/// What becomes of a command.
#[verifier::opaque]
pub open spec fn command_done<B: HQMServerBehaviour>(
    b0: B,
    s0: ServerView,
    command: Seq<char>,
    arg: Seq<char>,
    i: usize,
    b1: B,
    s1: ServerView,
    request: Option<RequestView>,
) -> bool {
    match s0.after_command(command, arg, i) {
        Some((s, r)) => b1 == b0 && s1 == s && request == r,
        None => B::command_handled(b0, s0, command, arg, i, b1, s1) && request is None,
    }
}

/// What becomes of a chat message.
#[verifier::opaque]
pub open spec fn message_done<B: HQMServerBehaviour>(
    b0: B,
    s0: ServerView,
    bytes: Seq<u8>,
    i: usize,
    b1: B,
    s1: ServerView,
    request: Option<RequestView>,
) -> bool {
    let line = decode_utf8(bytes);
    if valid_utf8(bytes) && s0.player(i) is Some && is_command(line) {
        command_done(b0, s0, command_of(line), argument_of(line), i, b1, s1, request)
    } else {
        &&& b1 == b0
        &&& request is None
        &&& s1 == (if valid_utf8(bytes) {
            s0.after_chat(i, line)
        } else {
            s0
        })
    }
}

/// What becomes of an update from a client.
#[verifier::opaque]
pub open spec fn update_done<B: HQMServerBehaviour>(
    b0: B,
    s0: ServerView,
    addr: HQMSocketAddr,
    u: UpdateView,
    version: HQMClientVersion,
    now: u64,
    b1: B,
    s1: ServerView,
    request: Option<RequestView>,
) -> bool {
    match slot_of_addr(s0.players, addr) {
        Some(i) => {
            let s = s0.after_update(i, u, version, now);
            match new_chat(s0.player(i)->0, u) {
                Some((_, message)) => message_done(b0, s, message, i, b1, s1, request),
                None => b1 == b0 && s1 == s && request is None,
            }
        },
        None => b1 == b0 && s1 == s0 && request is None,
    }
}

/// What becomes of a request to join.
#[verifier::opaque]
pub open spec fn join_done<B: HQMServerBehaviour>(
    b0: B,
    s0: ServerView,
    addr: HQMSocketAddr,
    name: Option<Seq<char>>,
    b1: B,
    s1: ServerView,
) -> bool {
    match (name, empty_slot(s0.players)) {
        (Some(name), Some(i)) => exists|s: ServerView| #[trigger]
            B::player_joined(b0, s0.with_new_player(i, name, addr), i, b1, s) && s1 == s.chat(
                None,
                name + " joined"@,
            ),
        _ => b1 == b0 && s1 == s0,
    }
}

/// What becomes of a client that leaves.
#[verifier::opaque]
pub open spec fn exit_done<B: HQMServerBehaviour>(
    b0: B,
    s0: ServerView,
    addr: HQMSocketAddr,
    b1: B,
    s1: ServerView,
) -> bool {
    match slot_of_addr(s0.players, addr) {
        Some(i) => exists|s: ServerView| #[trigger]
            B::player_exits(b0, s0, i, b1, s) && s.player(i) is Some && s1 == s.without_player(
                i,
            ).chat(None, s.player(i)->0.player_name + " exited"@),
        None => b1 == b0 && s1 == s0,
    }
}

/// An update that does not claim too much keeps the clients in step.
pub proof fn lemma_after_update_sync(
    s: ServerView,
    i: usize,
    u: UpdateView,
    version: HQMClientVersion,
    now: u64,
)
    requires
        s.in_sync(),
        s.player(i) is Some,
        u.game_id == s.game_id ==> u.known_msgpos <= s.player(i)->0.messages.len(),
    ensures
        s.after_update(i, u, version, now).in_sync(),
{
    reveal(ServerView::in_sync);
    let t = s.after_update(i, u, version, now);
    assert forall|j: int|
        0 <= j < t.players.len() && (#[trigger] t.players[j]) is Some implies msgpos_valid(
        t.game_id,
        t.players[j]->0,
    ) by {
        assert(s.players[j] is Some);
    }
}

impl HQMServer {
    /// Carries out a command that any player may give. Returns nothing if the
    /// server does not know the command.
    #[verifier::spinoff_prover]
    fn process_player_command(&mut self, command: &str, arg: &str, player_index: usize) -> (r:
        Option<Option<HQMRequest>>)
        ensures
            match r {
                Some(request) => old(self)@.after_player_command(command@, arg@, player_index)
                    == Some((final(self)@, request_view(request))),
                None => {
                    &&& old(self)@.after_player_command(command@, arg@, player_index) is None
                    &&& final(self)@ == old(self)@
                },
            },
    {
        reveal(ServerView::after_player_command);
        if str_eq(command, "lefty") {
            self.set_hand(HQMSkaterHand::Left, player_index);
            Some(None)
        } else if str_eq(command, "righty") {
            self.set_hand(HQMSkaterHand::Right, player_index);
            Some(None)
        } else if str_eq(command, "list") {
            if arg.is_empty() {
                self.list_players(player_index, 0);
            } else if let Some(first_index) = parse_index(arg) {
                self.list_players(player_index, first_index);
            }
            Some(None)
        } else if str_eq(command, "search") {
            self.search_players(player_index, arg);
            Some(None)
        } else if str_eq(command, "ping") {
            match parse_index(arg) {
                Some(ping_player_index) => Some(self.ping(ping_player_index, player_index)),
                None => Some(None),
            }
        } else if str_eq(command, "pings") {
            match self.find_named_player(arg) {
                Some(ping_player_index) => Some(self.ping(ping_player_index, player_index)),
                None => {
                    self.tell_ambiguous(player_index, arg, "Multiple matches found, use /ping X");
                    Some(None)
                },
            }
        } else if str_eq(command, "view") {
            if let Some(view_player_index) = parse_index(arg) {
                self.view_player(view_player_index, player_index);
            }
            Some(None)
        } else if str_eq(command, "views") {
            match self.find_named_player(arg) {
                Some(view_player_index) => {
                    self.view_player(view_player_index, player_index);
                },
                None => {
                    self.tell_ambiguous(player_index, arg, "Multiple matches found, use /view X");
                },
            }
            Some(None)
        } else if str_eq(command, "restoreview") {
            self.restore_view(player_index);
            Some(None)
        } else {
            None
        }
    }

    /// Carries out a command.
    pub fn process_command<B: HQMServerBehaviour>(
        &mut self,
        command: &str,
        arg: &str,
        player_index: usize,
        behaviour: &mut B,
    ) -> (request: Option<HQMRequest>)
        ensures
            command_done(
                *old(behaviour),
                old(self)@,
                command@,
                arg@,
                player_index,
                *final(behaviour),
                final(self)@,
                request_view(request),
            ),
            old(self)@.game.wf() ==> final(self)@.game.wf(),
            old(self)@.in_sync() ==> final(self)@.in_sync(),
    {
        broadcast use {group_game_wf, group_in_sync};

        reveal(command_done);
        proof {
            lemma_commands_answer(self@, command@, arg@, player_index);
            if let Some((t, _)) = self@.after_command(command@, arg@, player_index) {
                lemma_answered_kept(self@, t, player_index);
            }
        }
        match parse_admin_command(self.slots(), command, arg) {
            Some(Some(command)) => Some(HQMRequest::Admin { player_index, command }),
            Some(None) => None,
            None => match self.process_player_command(command, arg, player_index) {
                Some(request) => request,
                None => {
                    behaviour.handle_command(self, command, arg, player_index);
                    None
                },
            },
        }
    }

    /// Whether the chat is muted.
    fn chat_muted(&self) -> (r: bool)
        ensures
            r == self@.is_muted,
    {
        reveal(HQMServer::state);
        self.is_muted
    }

    /// Takes in a chat message.
    #[verifier::spinoff_prover]
    pub fn process_message<B: HQMServerBehaviour>(
        &mut self,
        bytes: Vec<u8>,
        player_index: usize,
        behaviour: &mut B,
    ) -> (request: Option<HQMRequest>)
        ensures
            message_done(
                *old(behaviour),
                old(self)@,
                bytes@,
                player_index,
                *final(behaviour),
                final(self)@,
                request_view(request),
            ),
            old(self)@.game.wf() ==> final(self)@.game.wf(),
            old(self)@.in_sync() ==> final(self)@.in_sync(),
    {
        broadcast use {group_game_wf, group_in_sync};

        reveal(message_done);
        let msg = match string_from_utf8(bytes) {
            Some(s) => s,
            None => {
                return None;
            },
        };
        let is_muted = match self.get_player(player_index) {
            Some(player) => player.is_muted,
            None => {
                return None;
            },
        };
        if let Some((command, arg)) = split_command(msg.as_str()) {
            return self.process_command(command.as_str(), arg.as_str(), player_index, behaviour);
        }
        if !self.chat_muted() {
            match is_muted {
                HQMMuteStatus::NotMuted => {
                    self.add_user_chat_message(msg.as_str(), player_index);
                },
                HQMMuteStatus::ShadowMuted => {
                    self.add_directed_user_chat_message(msg.as_str(), player_index, player_index);
                },
                HQMMuteStatus::Muted => {},
            }
        }
        None
    }

    /// The time since the server sent the step that a client has just received.
    fn measure_ping(&self, player_index: usize, u: &HQMClientUpdate, now: u64) -> (r: Option<u64>)
        requires
            self@.player(player_index) is Some,
        ensures
            r == ping_sample(self@, self@.player(player_index)->0, u@, now),
    {
        reveal(HQMServer::state);
        if let Some(player) = self.get_player(player_index) {
            if player.game_id == u.game_id && player.known_packet < u.known_packet {
                if let Some(diff) = self.game.packet.checked_sub(u.known_packet) {
                    let index: usize = diff as usize;
                    if index < self.game.saved_ticks.len() {
                        let time: u64 = self.game.saved_ticks[index].time;
                        assert(self@.game.saved_ticks[index as int].time == time);
                        return now.checked_sub(time);
                    }
                }
            }
        }
        None
    }

    /// Takes in what a client says, but for what the chat message says.
    fn apply_update(
        &mut self,
        player_index: usize,
        u: &HQMClientUpdate,
        client_version: HQMClientVersion,
        now: u64,
    ) -> (chat_is_new: bool)
        requires
            old(self)@.player(player_index) is Some,
        ensures
            final(self)@ == old(self)@.after_update(player_index, u@, client_version, now),
            chat_is_new == new_chat(old(self)@.player(player_index)->0, u@) is Some,
    {
        let sample: Option<u64> = self.measure_ping(player_index, u, now);
        reveal(HQMServer::state);
        if let Some(player) = self.players.get_mut(player_index) {
            player.take_update(u, client_version, sample)
        } else {
            false
        }
    }

    /// Takes in what a client says.
    #[verifier::spinoff_prover]
    pub fn player_update<B: HQMServerBehaviour>(
        &mut self,
        addr: HQMSocketAddr,
        parser: &mut HQMMessageReader,
        client_version: HQMClientVersion,
        now: u64,
        behaviour: &mut B,
    ) -> (request: Option<HQMRequest>)
        requires
            old(parser).wf(),
            old(parser).pos < usize::MAX - 512,
        ensures
            update_done(
                *old(behaviour),
                old(self)@,
                addr,
                parsed_update(old(parser).buf@, old(parser).at(), client_version),
                client_version,
                now,
                *final(behaviour),
                final(self)@,
                request_view(request),
            ),
            final(parser).moved(
                *old(parser),
                if slot_of_addr(old(self)@.players, addr) is Some {
                    update_end(old(parser).buf@, old(parser).at(), client_version)
                } else {
                    old(parser).at()
                },
            ),
            old(self)@.game.wf() ==> final(self)@.game.wf(),
            old(self)@.in_sync() && old(self)@.honest(
                addr,
                parsed_update(old(parser).buf@, old(parser).at(), client_version),
            ) ==> final(self)@.in_sync(),
    {
        broadcast use {group_game_wf, group_in_sync};

        reveal(update_done);
        let player_index: usize = match self.find_player_slot(addr) {
            Some(x) => x,
            None => {
                return None;
            },
        };
        let update = read_update(parser, client_version);
        let chat_is_new: bool = self.apply_update(player_index, &update, client_version, now);
        proof {
            if old(self)@.in_sync() && old(self)@.honest(addr, update@) {
                lemma_after_update_sync(old(self)@, player_index, update@, client_version, now);
            }
        }
        if chat_is_new {
            if let Some((_rep, message)) = update.chat {
                return self.process_message(message, player_index, behaviour);
            }
        }
        None
    }

    /// The most players that may be connected.
    fn player_max(&self) -> (n: usize)
        ensures
            n == self@.config.player_max,
    {
        reveal(HQMServer::state);
        self.config.player_max
    }

    /// Whether an address is kept from joining.
    fn join_barred(&self, addr: HQMSocketAddr) -> (r: bool)
        ensures
            r == (self@.ban_list.contains(addr.ip) || !self@.allow_join),
    {
        reveal(HQMServer::state);
        self.ban_list.contains(&addr.ip) || !self.allow_join
    }

    /// The name under which a client may join.
    fn accept_join(&self, addr: HQMSocketAddr, parser: &mut HQMMessageReader) -> (r: Option<String>)
        requires
            old(parser).wf(),
            old(parser).pos < usize::MAX - 64,
        ensures
            match r {
                Some(name) => self@.join_name(addr, old(parser).buf@, old(parser).at()) == Some(
                    name@,
                ),
                None => self@.join_name(addr, old(parser).buf@, old(parser).at()) is None,
            },
            final(parser).moved(
                *old(parser),
                self@.join_end(addr, old(parser).buf@, old(parser).at()),
            ),
    {
        let ghost p = parser.at();
        let ghost bytes = parser.buf@;
        if self.player_count() >= self.player_max() {
            return None;
        }
        let player_version: u32 = parser.read_bits(8);
        if player_version != GAME_VERSION {
            return None;
        }
        if self.find_player_slot(addr).is_some() {
            return None;
        }
        if self.join_barred(addr) {
            return None;
        }
        let player_name_bytes = parser.read_bytes_aligned(32);
        assert(player_name_bytes@ =~= bytes_at(bytes, p + 8, 32));
        get_player_name(player_name_bytes)
    }

    /// Lets a client join.
    #[verifier::spinoff_prover]
    pub fn player_join<B: HQMServerBehaviour>(
        &mut self,
        addr: HQMSocketAddr,
        parser: &mut HQMMessageReader,
        behaviour: &mut B,
    )
        requires
            old(parser).wf(),
            old(parser).pos < usize::MAX - 64,
        ensures
            join_done(
                *old(behaviour),
                old(self)@,
                addr,
                old(self)@.join_name(addr, old(parser).buf@, old(parser).at()),
                *final(behaviour),
                final(self)@,
            ),
            final(parser).moved(
                *old(parser),
                old(self)@.join_end(addr, old(parser).buf@, old(parser).at()),
            ),
            old(self)@.game.wf() ==> final(self)@.game.wf(),
            old(self)@.in_sync() ==> final(self)@.in_sync(),
    {
        broadcast use {group_game_wf, group_in_sync};

        reveal(join_done);
        match self.accept_join(addr, parser) {
            Some(name) => {
                if let Some(player_index) = self.add_player(name.clone(), addr) {
                    behaviour.after_player_join(self, player_index);
                    let msg = concat(name.as_str(), " joined");
                    self.add_server_chat_message(msg.as_str());
                }
            },
            None => {},
        }
    }

    /// Lets a client leave.
    #[verifier::spinoff_prover]
    pub fn player_exit<B: HQMServerBehaviour>(&mut self, addr: HQMSocketAddr, behaviour: &mut B)
        ensures
            exit_done(*old(behaviour), old(self)@, addr, *final(behaviour), final(self)@),
            old(self)@.game.wf() ==> final(self)@.game.wf(),
            old(self)@.in_sync() ==> final(self)@.in_sync(),
    {
        broadcast use {group_game_wf, group_in_sync};

        reveal(exit_done);
        if let Some(player_index) = self.find_player_slot(addr) {
            behaviour.before_player_exit(self, player_index);
            if let Some(player) = self.get_player(player_index) {
                let msg = concat(player.player_name.as_str(), " exited");
                self.remove_player(player_index);
                self.add_server_chat_message(msg.as_str());
            }
        }
    }

    /// Answers a client that asks what server this is.
    pub fn request_info<B: HQMServerBehaviour>(
        &self,
        parser: &mut HQMMessageReader,
        behaviour: &B,
    ) -> (reply: Vec<u8>)
        requires
            old(parser).wf(),
            old(parser).pos < usize::MAX - 16,
        ensures
            info_sent(
                *behaviour,
                self@,
                word_at(old(parser).buf@, align_pos(old(parser).at() + 8), 0),
                reply@,
            ),
            final(parser).moved(*old(parser), align_pos(old(parser).at() + 8) + 32),
    {
        reveal(info_sent);
        let _player_version: u32 = parser.read_bits(8);
        let ping: u32 = parser.read_u32_aligned();
        let player_count: usize = self.player_count();
        let number_of_players: u32 = behaviour.get_number_of_players();
        reveal(HQMServer::state);
        write_info(
            ping,
            player_count as u32,
            number_of_players,
            self.config.server_name.as_str(),
        )
    }
}

/// The answer to a client that asks what server this is, where `n` players
/// make a team.
pub open spec fn info_reply(s: ServerView, n: u32, ping: u32) -> Seq<u8> {
    pack(info_bits(ping, count_players(s.players) as u32 as nat, n, s.config.server_name))
}

/// What a client that asks what server this is gets to know.
#[verifier::opaque]
pub open spec fn info_sent<B: HQMServerBehaviour>(
    behaviour: B,
    s: ServerView,
    ping: u32,
    reply: Seq<u8>,
) -> bool {
    exists|n: u32| #[trigger] behaviour.number_of_players(n) && reply == info_reply(s, n, ping)
}

impl HQMConnectedPlayer {
    /// Takes in what the player's client says, but for what the chat message
    /// says. Returns whether there is a new chat message.
    fn take_update(
        &mut self,
        u: &HQMClientUpdate,
        client_version: HQMClientVersion,
        sample: Option<u64>,
    ) -> (chat_is_new: bool)
        ensures
            final(self)@ == (PlayerView {
                chat_rep: match new_chat(old(self)@, u@) {
                    Some((rep, _)) => Some(rep),
                    None => old(self)@.chat_rep,
                },
                ..updated_player(old(self)@, u@, client_version, sample)
            }),
            chat_is_new == new_chat(old(self)@, u@) is Some,
    {
        if let Some(duration_since_packet) = sample {
            self.last_ping.truncate(MAX_PINGS - 1);
            self.last_ping.push_front(duration_since_packet);
            assert(self.last_ping@ =~= with_ping(old(self).last_ping@, sample));
        }
        self.inactivity = 0;
        self.client_version = client_version;
        self.known_packet = u.known_packet;
        self.input = u.input;
        self.game_id = u.game_id;
        self.known_msgpos = u.known_msgpos;
        if let Some(deltatime) = u.deltatime {
            self.deltatime = deltatime;
        }
        if let Some((rep, _message)) = &u.chat {
            if self.chat_rep != Some(*rep) {
                self.chat_rep = Some(*rep);
                return true;
            }
        }
        false
    }
}

/// What is left to be done after a message has been taken in.
#[derive(Debug)]
pub enum HQMReaction {
    Nothing,
    /// These bytes are to be sent back.
    Reply(Vec<u8>),
    Request(HQMRequest),
}

/// The contents of an [`HQMReaction`].
pub enum ReactionView {
    Nothing,
    Reply(Seq<u8>),
    Request(RequestView),
}

impl View for HQMReaction {
    type V = ReactionView;

    open spec fn view(&self) -> ReactionView {
        match *self {
            HQMReaction::Nothing => ReactionView::Nothing,
            HQMReaction::Reply(bytes) => ReactionView::Reply(bytes@),
            HQMReaction::Request(request) => ReactionView::Request(request@),
        }
    }
}

/// A request, if there is one, as something left to be done.
pub open spec fn reaction_of(request: Option<RequestView>) -> ReactionView {
    match request {
        Some(r) => ReactionView::Request(r),
        None => ReactionView::Nothing,
    }
}

fn to_reaction(request: Option<HQMRequest>) -> (r: HQMReaction)
    ensures
        r@ == reaction_of(request_view(request)),
{
    match request {
        Some(request) => HQMReaction::Request(request),
        None => HQMReaction::Nothing,
    }
}

/// The version of a client that sends updates with a command byte.
pub open spec fn update_version(command: u8) -> Option<HQMClientVersion> {
    if command == 4 {
        Some(HQMClientVersion::Vanilla)
    } else if command == 8 {
        Some(HQMClientVersion::Ping)
    } else if command == 0x10 {
        Some(HQMClientVersion::PingRules)
    } else {
        None
    }
}

/// A message does not claim that its client, if it is in the current game, knows
/// messages that it was never sent.
pub open spec fn honest_message(s: ServerView, addr: HQMSocketAddr, msg: Seq<u8>) -> bool {
    match update_version(stream_byte(msg, 4)) {
        Some(version) => s.honest(addr, parsed_update(msg, 40, version)),
        None => true,
    }
}

/// What becomes of a message. Every message starts with the header, followed by
/// a byte that says what it is.
pub open spec fn message_handled<B: HQMServerBehaviour>(
    b0: B,
    s0: ServerView,
    addr: HQMSocketAddr,
    msg: Seq<u8>,
    now: u64,
    b1: B,
    s1: ServerView,
    reaction: ReactionView,
) -> bool {
    let command = stream_byte(msg, 4);
    if bytes_at(msg, 0, 4) != game_header() {
        b1 == b0 && s1 == s0 && reaction == ReactionView::Nothing
    } else if command == 0 {
        b1 == b0 && s1 == s0 && reaction is Reply && info_sent(
            b0,
            s0,
            word_at(msg, 48, 0),
            reaction->Reply_0,
        )
    } else if command == 2 {
        join_done(b0, s0, addr, s0.join_name(addr, msg, 40), b1, s1) && reaction
            == ReactionView::Nothing
    } else if command == 7 {
        exit_done(b0, s0, addr, b1, s1) && reaction == ReactionView::Nothing
    } else {
        match update_version(command) {
            Some(version) => exists|request: Option<RequestView>| #[trigger]
                reaction_of(request) == reaction && update_done(
                    b0,
                    s0,
                    addr,
                    parsed_update(msg, 40, version),
                    version,
                    now,
                    b1,
                    s1,
                    request,
                ),
            None => b1 == b0 && s1 == s0 && reaction == ReactionView::Nothing,
        }
    }
}

impl HQMServer {
    /// Takes in a message from a client.
    #[verifier::spinoff_prover]
    pub fn handle_message<B: HQMServerBehaviour>(
        &mut self,
        addr: HQMSocketAddr,
        msg: &[u8],
        now: u64,
        behaviour: &mut B,
    ) -> (reaction: HQMReaction)
        ensures
            message_handled(
                *old(behaviour),
                old(self)@,
                addr,
                msg@,
                now,
                *final(behaviour),
                final(self)@,
                reaction@,
            ),
            old(self)@.game.wf() ==> final(self)@.game.wf(),
            old(self)@.in_sync() && honest_message(old(self)@, addr, msg@)
                ==> final(self)@.in_sync(),
    {
        let mut parser = HQMMessageReader::new(msg);
        let header = parser.read_bytes_aligned(4);
        assert(header@ =~= bytes_at(msg@, 0, 4));
        if !(header[0] == 0x48 && header[1] == 0x6f && header[2] == 0x63 && header[3] == 0x6b) {
            proof {
                assert(game_header()[0] == 0x48 && game_header()[1] == 0x6f && game_header()[2]
                    == 0x63 && game_header()[3] == 0x6b);
            }
            return HQMReaction::Nothing;
        }
        assert(header@ =~= game_header());
        let command: u8 = parser.read_byte_aligned();
        if command == 0 {
            HQMReaction::Reply(self.request_info(&mut parser, behaviour))
        } else if command == 2 {
            self.player_join(addr, &mut parser, behaviour);
            HQMReaction::Nothing
        } else if command == 4 {
            to_reaction(
                self.player_update(
                    addr,
                    &mut parser,
                    HQMClientVersion::Vanilla,
                    now,
                    behaviour,
                ),
            )
        } else if command == 8 {
            to_reaction(
                self.player_update(addr, &mut parser, HQMClientVersion::Ping, now, behaviour),
            )
        } else if command == 0x10 {
            to_reaction(
                self.player_update(addr, &mut parser, HQMClientVersion::PingRules, now, behaviour),
            )
        } else if command == 7 {
            self.player_exit(addr, behaviour);
            HQMReaction::Nothing
        } else {
            HQMReaction::Nothing
        }
    }
}

} // verus!
