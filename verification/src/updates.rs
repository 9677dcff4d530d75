//! What the server sends: updates to players, the replay, and the answer to
//! clients that look for a server.
use crate::bits::{
    byte_count, pack, pad_bytes, put_bits, put_byte, put_bytes, put_u32,
};
use crate::hqm_game::{
    messages_view, ticks_wf, GameView, HQMGame, HQMRuleIndication, HQMRulesState, MessageView,
    OBJECT_SLOTS,
};
use crate::hqm_parse::HQMMessageWriter;
use crate::players::{msgpos_valid, slots_view, HQMConnectedPlayer, HQMSocketAddr, PlayerView};
use crate::protocol::{
    base_packets, lemma_put_messages_len, lemma_put_slots_len, put_messages, put_objects,
    write_messages, write_objects,
};
use vstd::prelude::*;
use vstd::slice::{slice_subrange, slice_to_vec};
use vstd::utf8::encode_utf8;

verus! {

/// `s` followed by the score and the clock.
pub open spec fn put_status(s: Seq<bool>, game: GameView) -> Seq<bool> {
    let s = put_bits(
        s,
        1,
        if game.game_over {
            1
        } else {
            0
        },
    );
    let s = put_bits(s, 8, game.red_score as nat);
    let s = put_bits(s, 8, game.blue_score as nat);
    let s = put_bits(s, 16, game.time as nat);
    let s = put_bits(
        s,
        16,
        if game.is_intermission_goal {
            game.time_break as nat
        } else {
            0
        },
    );
    put_bits(s, 8, game.period as nat)
}

fn write_status(writer: &mut HQMMessageWriter, game: &HQMGame)
    requires
        old(writer).wf(),
        put_status(old(writer).bits(), game@).len() <= old(writer).capacity(),
    ensures
        final(writer).wrote(*old(writer), put_status(old(writer).bits(), game@)),
{
    writer.write_bits(
        1,
        match game.game_over {
            true => 1,
            false => 0,
        },
    );
    writer.write_bits(8, game.red_score);
    writer.write_bits(8, game.blue_score);
    writer.write_bits(16, game.time);
    writer.write_bits(
        16,
        if game.is_intermission_goal {
            game.time_break
        } else {
            0
        },
    );
    writer.write_bits(8, game.period);
}

/// What the replay gets of the latest step: the score, the clock, the objects,
/// and the messages that are not in it yet.
pub open spec fn replay_bits(game: GameView) -> Seq<bool> {
    let s = replay_head(game);
    let s = put_objects(s, game.packet, game.saved_ticks, game.replay_last_packet);
    let remaining = game.replay_messages.len() - game.replay_msg_pos;
    let s = put_bits(s, 16, remaining as u32 as nat);
    let s = put_bits(s, 16, game.replay_msg_pos as u32 as nat);
    put_messages(s, game.replay_messages.skip(game.replay_msg_pos as int))
}

/// A buffer in which `s` has been written from the start on.
pub open spec fn overlay(buf: Seq<u8>, s: Seq<bool>) -> Seq<u8> {
    pack(s) + buf.skip(byte_count(s.len()) as int)
}

/// What the replay gets of the latest step, up to the objects.
pub open spec fn replay_head(game: GameView) -> Seq<bool> {
    put_status(put_byte(Seq::empty(), 5), game)
}

/// How long the parts are that the replay gets of the latest step.
proof fn lemma_replay_parts(game: GameView)
    requires
        game.replay_msg_pos <= game.replay_messages.len(),
    ensures
        ({
            let n = game.replay_messages.len() - game.replay_msg_pos;
            let head = replay_head(game);
            let objects = put_objects(
                head,
                game.packet,
                game.saved_ticks,
                game.replay_last_packet,
            );
            &&& head.len() == 65
            &&& head.len() + 64 <= objects.len() <= head.len() + 71 + 261 * OBJECT_SLOTS
            &&& objects.len() + 32 + 18 * n <= replay_bits(game).len() <= objects.len() + 32 + 459
                * n
        }),
{
    let head = replay_head(game);
    let objects = put_objects(head, game.packet, game.saved_ticks, game.replay_last_packet);
    let ms = game.replay_messages.skip(game.replay_msg_pos as int);
    let counted = put_bits(
        put_bits(objects, 16, ms.len() as u32 as nat),
        16,
        game.replay_msg_pos as u32 as nat,
    );
    lemma_put_slots_len(
        put_u32(put_u32(head, game.packet), game.replay_last_packet),
        game.saved_ticks[0].packets,
        base_packets(game.packet, game.saved_ticks, game.replay_last_packet),
        0,
        OBJECT_SLOTS as nat,
    );
    assert(ms.take(ms.len() as int) =~= ms);
    assert(ms.take(0) =~= Seq::<MessageView>::empty());
    lemma_put_messages_len(counted, ms, 0, ms.len());
}

/// Writes what the replay gets of the latest step.
fn write_replay_step(writer: &mut HQMMessageWriter, game: &HQMGame)
    requires
        old(writer).wf(),
        old(writer).bits() == Seq::<bool>::empty(),
        ticks_wf(game@.saved_ticks),
        game@.replay_msg_pos <= game@.replay_messages.len(),
        game@.saved_ticks.len() > 0,
        replay_bits(game@).len() <= old(writer).capacity(),
    ensures
        final(writer).wrote(*old(writer), replay_bits(game@)),
{
    let remaining_messages: usize = game.replay_messages.len() - game.replay_msg_pos;
    proof {
        lemma_replay_parts(game@);
        assert(game@.replay_messages.skip(game.replay_msg_pos as int)
            =~= game@.replay_messages.subrange(
            game.replay_msg_pos as int,
            game@.replay_messages.len() as int,
        ));
    }
    writer.write_byte_aligned(5);
    write_status(writer, game);
    write_objects(writer, game, &game.saved_ticks, game.replay_last_packet);
    writer.write_bits(16, remaining_messages as u32);
    writer.write_bits(16, game.replay_msg_pos as u32);
    write_messages(
        writer,
        &game.replay_messages,
        game.replay_msg_pos,
        game.replay_messages.len(),
    );
}

impl GameView {
    /// The game after the latest step has been built up in a buffer that held
    /// `buf` and added to the replay.
    ///
    /// The replay gets the bytes up to and including the one that the next bit
    /// would go to; if the bits end at a byte boundary, that byte is what the
    /// buffer held there before.
    pub open spec fn replayed(self, buf: Seq<u8>) -> Self {
        GameView {
            replay_last_packet: self.packet,
            replay_msg_pos: self.replay_messages.len() as usize,
            replay_data: self.replay_data + overlay(buf, replay_bits(self)).take(
                (replay_bits(self).len() / 8 + 1) as int,
            ),
            ..self
        }
    }
}

/// Adds the latest step to the replay. The step is built up in `write_buf`.
pub fn write_replay(game: &mut HQMGame, write_buf: &mut Vec<u8>)
    requires
        ticks_wf(old(game)@.saved_ticks),
        old(game)@.replay_msg_pos <= old(game)@.replay_messages.len(),
        old(game)@.saved_ticks.len() > 0,
        replay_bits(old(game)@).len() < 8 * old(write_buf)@.len(),
    ensures
        final(write_buf)@ =~= overlay(old(write_buf)@, replay_bits(old(game)@)),
        final(game)@ == old(game)@.replayed(old(write_buf)@),
        old(game)@.wf() ==> final(game)@.wf(),
{
    reveal(GameView::wf);
    let ghost g = game@;
    let ghost pre_buf = write_buf@;
    let mut buf: Vec<u8> = Vec::new();
    std::mem::swap(&mut buf, write_buf);
    let mut writer = HQMMessageWriter::new(buf);
    assert(writer.bits() =~= Seq::<bool>::empty());
    write_replay_step(&mut writer, game);
    let pos: usize = writer.get_pos();
    proof {
        writer.lemma_written();
    }
    game.replay_last_packet = game.packet;
    game.replay_msg_pos = game.replay_messages.len();
    *write_buf = writer.buf;
    assert(write_buf.len() <= usize::MAX);
    assert(write_buf@ =~= overlay(pre_buf, replay_bits(g)));
    game.replay_data.extend_from_slice(slice_subrange(write_buf.as_slice(), 0, pos + 1));
    assert(game@.replay_data =~= g.replay_data + write_buf@.take(pos + 1));
}

/// The most messages that could go into the replay in one step.
const MAX_REPLAY_MESSAGES: usize = 1820;

/// Room for what the replay gets of a step with as many messages.
const REPLAY_SCRATCH_SIZE: usize = 120_000;

/// Whether what the replay gets of the latest step can be built up in a buffer
/// of [`UPDATE_BUFFER_SIZE`] bytes.
pub fn replay_fits(game: &HQMGame) -> (r: bool)
    requires
        ticks_wf(game@.saved_ticks),
        game@.replay_msg_pos <= game@.replay_messages.len(),
        game@.saved_ticks.len() > 0,
    ensures
        r == (replay_bits(game@).len() < 8 * UPDATE_BUFFER_SIZE),
{
    proof {
        lemma_replay_parts(game@);
    }
    if game.replay_messages.len() - game.replay_msg_pos > MAX_REPLAY_MESSAGES {
        return false;
    }
    let mut writer = HQMMessageWriter::new(vec![0u8; REPLAY_SCRATCH_SIZE]);
    assert(writer.bits() =~= Seq::<bool>::empty());
    write_replay_step(&mut writer, game);
    writer.get_pos() < UPDATE_BUFFER_SIZE
}

/// What every message between client and server starts with.
pub open spec fn game_header() -> Seq<u8> {
    seq![0x48, 0x6f, 0x63, 0x6b]
}

fn write_header(writer: &mut HQMMessageWriter, command: u8)
    requires
        old(writer).wf(),
        put_header(old(writer).bits(), command).len() <= old(writer).capacity(),
    ensures
        final(writer).wrote(*old(writer), put_header(old(writer).bits(), command)),
{
    let header: [u8; 4] = [0x48, 0x6f, 0x63, 0x6b];
    assert(header@ =~= game_header());
    writer.write_bytes_aligned(header.as_slice());
    writer.write_byte_aligned(command);
}

/// `s` followed by the header and a command byte.
pub open spec fn put_header(s: Seq<bool>, command: u8) -> Seq<bool> {
    put_byte(put_bytes(s, game_header()), command)
}

/// What the rules have to say. Offside goes before icing.
pub open spec fn rules_state_of(game: GameView) -> HQMRulesState {
    if game.offside_indication == HQMRuleIndication::Yes {
        HQMRulesState::Offside
    } else if game.icing_indication == HQMRuleIndication::Yes {
        HQMRulesState::Icing
    } else {
        HQMRulesState::Regular {
            offside_warning: game.offside_indication == HQMRuleIndication::Warning,
            icing_warning: game.icing_indication == HQMRuleIndication::Warning,
        }
    }
}

/// The number that stands for the state of the rules on the wire.
pub open spec fn rules_num(state: HQMRulesState) -> u32 {
    match state {
        HQMRulesState::Regular { offside_warning: false, icing_warning: false } => 0,
        HQMRulesState::Regular { offside_warning: true, icing_warning: false } => 1,
        HQMRulesState::Regular { offside_warning: false, icing_warning: true } => 2,
        HQMRulesState::Regular { offside_warning: true, icing_warning: true } => 3,
        HQMRulesState::Offside => 4,
        HQMRulesState::Icing => 8,
    }
}

fn get_rules_state(game: &HQMGame) -> (state: HQMRulesState)
    ensures
        state == rules_state_of(game@),
{
    if game.offside_indication == HQMRuleIndication::Yes {
        HQMRulesState::Offside
    } else if game.icing_indication == HQMRuleIndication::Yes {
        HQMRulesState::Icing
    } else {
        let icing_warning = game.icing_indication == HQMRuleIndication::Warning;
        let offside_warning = game.offside_indication == HQMRuleIndication::Warning;
        HQMRulesState::Regular { offside_warning, icing_warning }
    }
}

fn get_rules_num(state: HQMRulesState) -> (n: u32)
    ensures
        n == rules_num(state),
{
    match state {
        HQMRulesState::Regular { offside_warning, icing_warning } => {
            let mut res: u32 = 0;
            if offside_warning {
                res = res + 1;
            }
            if icing_warning {
                res = res + 2;
            }
            res
        },
        HQMRulesState::Offside => 4,
        HQMRulesState::Icing => 8,
    }
}

/// The most messages that one update carries.
pub const MAX_UPDATE_MESSAGES: usize = 15;

/// The messages that the next update carries: those that the player has not
/// received yet, from the oldest on, as many as fit in.
pub open spec fn pending_messages(player: PlayerView) -> Seq<MessageView> {
    let pending = player.messages.skip(player.known_msgpos as int);
    if pending.len() <= MAX_UPDATE_MESSAGES {
        pending
    } else {
        pending.take(MAX_UPDATE_MESSAGES as int)
    }
}

/// The first part of an update, up to the objects.
pub open spec fn update_head(game_id: u32, game: GameView, player: PlayerView) -> Seq<bool> {
    let s = put_header(Seq::empty(), 5);
    let s = put_u32(s, game_id);
    let s = put_u32(s, game.game_step);
    let s = put_status(s, game);
    let s = put_bits(s, 8, player.view_player_index as u32 as nat);
    let s = if player.client_version.pings() {
        put_u32(s, player.deltatime)
    } else {
        s
    };
    if player.client_version.shows_rules() {
        put_u32(s, rules_num(rules_state_of(game)))
    } else {
        s
    }
}

/// What a player is sent after a step: the state of the game, or, if the client
/// does not know yet that it is in game `game_id`, only the number of the game.
pub open spec fn update_bits(game_id: u32, game: GameView, player: PlayerView) -> Seq<bool> {
    if player.game_id != game_id {
        put_u32(put_header(Seq::empty(), 6), game_id)
    } else {
        let s = update_head(game_id, game, player);
        let s = put_objects(s, game.packet, game.saved_ticks, player.known_packet);
        let messages = pending_messages(player);
        let s = put_bits(s, 4, messages.len());
        let s = put_bits(s, 16, player.known_msgpos as u32 as nat);
        put_messages(s, messages)
    }
}

/// The size of the buffer that updates are built up in.
pub const UPDATE_BUFFER_SIZE: usize = 4096;

/// How long the parts of an update are.
proof fn lemma_update_parts(game_id: u32, game: GameView, player: PlayerView)
    requires
        player.game_id == game_id,
    ensures
        ({
            let n = pending_messages(player).len();
            let head = update_head(game_id, game, player);
            let objects = put_objects(head, game.packet, game.saved_ticks, player.known_packet);
            &&& head.len() <= 300
            &&& head.len() + 64 <= objects.len() <= head.len() + 71 + 261 * OBJECT_SLOTS
            &&& objects.len() + 20 + 18 * n <= update_bits(game_id, game, player).len()
                <= objects.len() + 20 + 459 * n
            &&& n <= MAX_UPDATE_MESSAGES
        }),
{
    lemma_update_head_len(game_id, game, player);
    let head = update_head(game_id, game, player);
    let objects = put_objects(head, game.packet, game.saved_ticks, player.known_packet);
    let ms = pending_messages(player);
    let counted = put_bits(
        put_bits(objects, 4, ms.len()),
        16,
        player.known_msgpos as u32 as nat,
    );
    lemma_put_slots_len(
        put_u32(put_u32(head, game.packet), player.known_packet),
        game.saved_ticks[0].packets,
        base_packets(game.packet, game.saved_ticks, player.known_packet),
        0,
        OBJECT_SLOTS as nat,
    );
    assert(ms.take(ms.len() as int) =~= ms);
    assert(ms.take(0) =~= Seq::<MessageView>::empty());
    lemma_put_messages_len(counted, ms, 0, ms.len());
}

/// However many objects and messages there are, an update fits in the buffer.
pub proof fn law_update_fits(game_id: u32, game: GameView, player: PlayerView)
    ensures
        update_bits(game_id, game, player).len() <= 8 * UPDATE_BUFFER_SIZE,
{
    if player.game_id == game_id {
        lemma_update_parts(game_id, game, player);
    }
}

proof fn lemma_update_head_len(game_id: u32, game: GameView, player: PlayerView)
    ensures
        update_head(game_id, game, player).len() <= 300,
{
}

/// Writes what a player is sent after a step.
fn write_update(
    writer: &mut HQMMessageWriter,
    game_id: u32,
    game: &HQMGame,
    player: &HQMConnectedPlayer,
)
    requires
        old(writer).wf(),
        old(writer).bits().len() == 0,
        ticks_wf(game@.saved_ticks),
        game@.saved_ticks.len() > 0,
        msgpos_valid(game_id, player@),
        update_bits(game_id, game@, player@).len() <= old(writer).capacity(),
    ensures
        final(writer).wrote(*old(writer), update_bits(game_id, game@, player@)),
{
    let ghost g = game@;
    let ghost p = player@;
    assert(writer.bits() =~= Seq::<bool>::empty());
    if player.game_id != game_id {
        write_header(writer, 6);
        writer.write_u32_aligned(game_id);
        return ;
    }
    let ghost ms = pending_messages(p);
    proof {
        lemma_update_parts(game_id, g, p);
    }
    write_update_head(writer, game_id, game, player);
    write_objects(writer, game, &game.saved_ticks, player.known_packet);

    let unsent: usize = player.messages.len() - player.known_msgpos;
    let remaining_messages: usize = if unsent < MAX_UPDATE_MESSAGES {
        unsent
    } else {
        MAX_UPDATE_MESSAGES
    };
    assert(ms =~= messages_view(player.messages@).subrange(
        player.known_msgpos as int,
        player.known_msgpos + remaining_messages,
    ));
    writer.write_bits(4, remaining_messages as u32);
    writer.write_bits(16, player.known_msgpos as u32);
    write_messages(
        writer,
        &player.messages,
        player.known_msgpos,
        player.known_msgpos + remaining_messages,
    );
}

fn write_update_head(
    writer: &mut HQMMessageWriter,
    game_id: u32,
    game: &HQMGame,
    player: &HQMConnectedPlayer,
)
    requires
        old(writer).wf(),
        old(writer).bits() == Seq::<bool>::empty(),
        update_head(game_id, game@, player@).len() <= old(writer).capacity(),
    ensures
        final(writer).wrote(*old(writer), update_head(game_id, game@, player@)),
{
    write_header(writer, 5);
    writer.write_u32_aligned(game_id);
    writer.write_u32_aligned(game.game_step);
    write_status(writer, game);
    writer.write_bits(8, player.view_player_index as u32);
    if player.client_version.has_ping() {
        writer.write_u32_aligned(player.deltatime);
    }
    if player.client_version.has_rules() {
        let num: u32 = get_rules_num(get_rules_state(game));
        writer.write_u32_aligned(num);
    }
}

/// What the players in `slots` are sent after a step, each with the address it goes to.
pub open spec fn updates(game_id: u32, game: GameView, slots: Seq<Option<PlayerView>>) -> Seq<
    (HQMSocketAddr, Seq<u8>),
>
    decreases slots.len(),
{
    if slots.len() == 0 {
        Seq::empty()
    } else {
        let before = updates(game_id, game, slots.drop_last());
        match slots.last() {
            Some(player) => before.push((player.addr, pack(update_bits(game_id, game, player)))),
            None => before,
        }
    }
}

/// The buffer after the updates for the players in `slots` have been built up in it.
pub open spec fn updates_buffer(
    buf: Seq<u8>,
    game_id: u32,
    game: GameView,
    slots: Seq<Option<PlayerView>>,
) -> Seq<u8>
    decreases slots.len(),
{
    if slots.len() == 0 {
        buf
    } else {
        let before = updates_buffer(buf, game_id, game, slots.drop_last());
        match slots.last() {
            Some(player) => overlay(before, update_bits(game_id, game, player)),
            None => before,
        }
    }
}

/// The contents of a list of updates.
pub open spec fn outgoing_view(out: Seq<(HQMSocketAddr, Vec<u8>)>) -> Seq<
    (HQMSocketAddr, Seq<u8>),
> {
    out.map_values(|o: (HQMSocketAddr, Vec<u8>)| (o.0, o.1@))
}

/// Builds up what each connected player is sent after a step.
pub fn send_updates(
    game_id: u32,
    game: &HQMGame,
    players: &Vec<Option<HQMConnectedPlayer>>,
    write_buf: &mut Vec<u8>,
) -> (out: Vec<(HQMSocketAddr, Vec<u8>)>)
    requires
        ticks_wf(game@.saved_ticks),
        game@.saved_ticks.len() > 0,
        forall|i: int|
            0 <= i < players@.len() ==> match #[trigger] slots_view(players@)[i] {
                Some(p) => {
                    &&& msgpos_valid(game_id, p)
                    &&& update_bits(game_id, game@, p).len() <= 8 * old(write_buf)@.len()
                },
                None => true,
            },
    ensures
        outgoing_view(out@) =~= updates(game_id, game@, slots_view(players@)),
        final(write_buf)@ =~= updates_buffer(
            old(write_buf)@,
            game_id,
            game@,
            slots_view(players@),
        ),
        final(write_buf)@.len() == old(write_buf)@.len(),
{
    let ghost slots = slots_view(players@);
    let ghost pre_buf = write_buf@;
    let mut out: Vec<(HQMSocketAddr, Vec<u8>)> = Vec::new();
    let mut buf: Vec<u8> = Vec::new();
    std::mem::swap(&mut buf, write_buf);
    let mut i: usize = 0;
    assert(slots.take(0) =~= Seq::<Option<PlayerView>>::empty());
    while i < players.len()
        invariant
            i <= players@.len(),
            slots == slots_view(players@),
            ticks_wf(game@.saved_ticks),
            game@.saved_ticks.len() > 0,
            forall|j: int|
                0 <= j < players@.len() ==> match #[trigger] slots[j] {
                    Some(p) => {
                        &&& msgpos_valid(game_id, p)
                        &&& update_bits(game_id, game@, p).len() <= 8 * pre_buf.len()
                    },
                    None => true,
                },
            outgoing_view(out@) =~= updates(game_id, game@, slots.take(i as int)),
            buf@ =~= updates_buffer(pre_buf, game_id, game@, slots.take(i as int)),
            buf@.len() == pre_buf.len(),
        decreases players@.len() - i,
    {
        assert(slots.take(i + 1).drop_last() =~= slots.take(i as int));
        assert(slots[i as int] == crate::players::slot_view(players@[i as int]));
        if let Some(player) = &players[i] {
            let ghost before = buf@;
            let ghost s = update_bits(game_id, game@, player@);
            let ghost sent = outgoing_view(out@);
            let mut writer = HQMMessageWriter::new(buf);
            write_update(&mut writer, game_id, game, player);
            let bytes_written: usize = writer.get_bytes_written();
            buf = writer.buf;
            assert(buf@ =~= overlay(before, s));
            let slice = slice_subrange(buf.as_slice(), 0, bytes_written);
            let bytes: Vec<u8> = slice_to_vec(slice);
            assert(bytes@ =~= pack(s));
            out.push((player.addr, bytes));
            assert(outgoing_view(out@) =~= sent.push((player.addr, pack(s))));
        }
        i = i + 1;
    }
    assert(slots.take(players@.len() as int) =~= slots);
    *write_buf = buf;
    out
}

/// The version of the protocol.
pub const GAME_VERSION: u32 = 55;

/// The bytes of the server name that are sent.
pub const SERVER_NAME_BYTES: usize = 32;

/// The answer to a client that asks what server this is.
pub open spec fn info_bits(
    ping: u32,
    player_count: nat,
    number_of_players: u32,
    server_name: Seq<char>,
) -> Seq<bool> {
    let s = put_header(Seq::empty(), 1);
    let s = put_bits(s, 8, GAME_VERSION as nat);
    let s = put_u32(s, ping);
    let s = put_bits(s, 8, player_count);
    let s = put_bits(s, 4, 4);
    let s = put_bits(s, 4, number_of_players as nat);
    put_bytes(s, pad_bytes(encode_utf8(server_name), SERVER_NAME_BYTES as nat))
}

/// Builds up the answer to a client that asks what server this is.
pub fn write_info(
    ping: u32,
    player_count: u32,
    number_of_players: u32,
    server_name: &str,
) -> (bytes: Vec<u8>)
    ensures
        bytes@ =~= pack(info_bits(ping, player_count as nat, number_of_players, server_name@)),
{
    let mut writer = HQMMessageWriter::new(vec![0u8; 128]);
    assert(writer.bits() =~= Seq::<bool>::empty());
    write_header(&mut writer, 1);
    writer.write_bits(8, GAME_VERSION);
    writer.write_u32_aligned(ping);
    writer.write_bits(8, player_count);
    writer.write_bits(4, 4);
    writer.write_bits(4, number_of_players);
    writer.write_bytes_aligned_padded(SERVER_NAME_BYTES, server_name.as_bytes());
    let written: usize = writer.get_bytes_written();
    let buf = writer.buf;
    slice_to_vec(slice_subrange(buf.as_slice(), 0, written))
}

} // verus!
