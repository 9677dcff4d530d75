//! What the server sends: to whom, and what stands in it.
use crate::behaviour::HQMServerBehaviour;
use crate::bits::{
    align_pos, lemma_bits_value_bound, pack, put_bits, put_u32, stream_bits, stream_value,
};
use crate::hqm_game::{
    ticks_wf, GameView, HQMObjectPacket, HQMPuckPacket, HQMRuleIndication, HQMSkaterPacket,
    HQMTeam, MessageView, TickView,
};
use crate::hqm_parse::{lemma_put_pos_len, put_pos};
use crate::join_laws::{law_byte_is_read, law_players_are_counted, lemma_header};
use crate::players::{count_players, HQMClientVersion, HQMSocketAddr, PlayerView};
use crate::protocol::{
    base_packets, chat_bytes, name_bytes, old_of, put_objects, put_puck, put_skater, put_slot,
    put_slots,
};
use crate::readback::{
    cut_to_seven, law_game_id_read_back, law_info_read_back, law_replay_read_back,
    law_update_read_back, packet_fits, read_messages, read_slots, wire_message, wire_messages,
    WireMessage,
};
use crate::server::ServerView;
use crate::session::{info_reply, info_sent, message_handled, ReactionView};
use crate::terms::{byte_at, is_message, taken};
use crate::updates::{
    pending_messages, replay_bits, rules_num, rules_state_of, update_bits,
    updates, updates_buffer,
};
use vstd::arithmetic::power2::lemma2_to64;
use vstd::prelude::*;
use vstd::utf8::encode_utf8;

verus! {

/// After a step every connected player is sent one update: the one made for them,
/// to their address, in the order of the slots. Nothing else is sent.
pub proof fn law_everybody_is_sent_an_update(
    game_id: u32,
    game: GameView,
    slots: Seq<Option<PlayerView>>,
)
    ensures
        ({
            let out = updates(game_id, game, slots);
            &&& out.len() == taken(slots, slots.len() as int).len()
            &&& forall|i: int|
                0 <= i < slots.len() && (#[trigger] slots[i]) is Some ==> {
                    let p = slots[i]->0;
                    let rank = taken(slots, i).len() as int;
                    &&& 0 <= rank < out.len()
                    &&& out[rank] == (p.addr, pack(update_bits(game_id, game, p)))
                }
        }),
    decreases slots.len(),
{
    let out = updates(game_id, game, slots);
    let n = slots.len() as int;
    law_players_are_counted(slots);
    if n > 0 {
        let init = slots.drop_last();
        law_everybody_is_sent_an_update(game_id, game, init);
        law_players_are_counted(init);
        let before = updates(game_id, game, init);
        assert(taken(slots, n - 1) =~= taken(init, n - 1));
        assert forall|i: int| 0 <= i < n && (#[trigger] slots[i]) is Some implies {
            let p = slots[i]->0;
            let rank = taken(slots, i).len() as int;
            &&& 0 <= rank < out.len()
            &&& out[rank] == (p.addr, pack(update_bits(game_id, game, p)))
        } by {
            if i < n - 1 {
                assert(init[i] == slots[i]);
                assert(taken(slots, i) =~= taken(init, i));
            }
        }
    }
}

/// Whatever is sent after a step is the update of a connected player.
pub proof fn law_only_players_are_sent_updates(
    game_id: u32,
    game: GameView,
    slots: Seq<Option<PlayerView>>,
    a: int,
)
    requires
        0 <= a < updates(game_id, game, slots).len(),
    ensures
        exists|i: int|
            0 <= i < slots.len() && (#[trigger] slots[i]) is Some && updates(
                game_id,
                game,
                slots,
            )[a] == (slots[i]->0.addr, pack(update_bits(game_id, game, slots[i]->0))),
    decreases slots.len(),
{
    let init = slots.drop_last();
    if a < updates(game_id, game, init).len() {
        law_only_players_are_sent_updates(game_id, game, init, a);
        let i = choose|i: int|
            0 <= i < init.len() && (#[trigger] init[i]) is Some && updates(game_id, game, init)[a]
                == (init[i]->0.addr, pack(update_bits(game_id, game, init[i]->0)));
        assert(slots[i] is Some);
    } else {
        assert(slots[slots.len() - 1] is Some);
    }
}

/// In the buffer in which updates are built up, each byte is that of the last
/// update that was long enough to have one there. If none was, it is as before.
pub proof fn law_buffer_holds_the_last_update(
    buf: Seq<u8>,
    game_id: u32,
    game: GameView,
    slots: Seq<Option<PlayerView>>,
    k: int,
    i: int,
)
    requires
        forall|j: int|
            0 <= j < slots.len() && (#[trigger] slots[j]) is Some ==> update_bits(
                game_id,
                game,
                slots[j]->0,
            ).len() <= 8 * buf.len(),
        0 <= k < buf.len(),
        -1 <= i < slots.len(),
        i >= 0 ==> slots[i] is Some && k < pack(update_bits(game_id, game, slots[i]->0)).len(),
        forall|j: int|
            i < j < slots.len() && (#[trigger] slots[j]) is Some ==> k >= pack(
                update_bits(game_id, game, slots[j]->0),
            ).len(),
    ensures
        ({
            let after = updates_buffer(buf, game_id, game, slots);
            &&& after.len() == buf.len()
            &&& after[k] == (if i >= 0 {
                pack(update_bits(game_id, game, slots[i]->0))[k]
            } else {
                buf[k]
            })
        }),
    decreases slots.len(),
{
    if slots.len() > 0 {
        let n = slots.len() - 1;
        let init = slots.drop_last();
        assert forall|j: int| 0 <= j < init.len() && (#[trigger] init[j]) is Some implies slots[j]
            == init[j] by {}
        if i == n {
            lemma_buffer_len(buf, game_id, game, init);
        } else {
            assert forall|j: int| i < j < init.len() && (#[trigger] init[j]) is Some implies k
                >= pack(update_bits(game_id, game, init[j]->0)).len() by {
                assert(slots[j] is Some);
            }
            law_buffer_holds_the_last_update(buf, game_id, game, init, k, i);
        }
        assert(slots[n] == slots.last());
    }
}

proof fn lemma_buffer_len(
    buf: Seq<u8>,
    game_id: u32,
    game: GameView,
    slots: Seq<Option<PlayerView>>,
)
    requires
        forall|j: int|
            0 <= j < slots.len() && (#[trigger] slots[j]) is Some ==> update_bits(
                game_id,
                game,
                slots[j]->0,
            ).len() <= 8 * buf.len(),
    ensures
        updates_buffer(buf, game_id, game, slots).len() == buf.len(),
    decreases slots.len(),
{
    if slots.len() > 0 {
        let init = slots.drop_last();
        assert forall|j: int| 0 <= j < init.len() && (#[trigger] init[j]) is Some implies slots[j]
            == init[j] by {}
        lemma_buffer_len(buf, game_id, game, init);
        assert(slots[slots.len() - 1] == slots.last());
    }
}

/// The packets of the step that a client says it knows, if the objects are coded
/// against them: the step has to be one before the latest, less than 192 steps
/// back, and the server has to remember it.
pub open spec fn known_objects(
    packet: u32,
    ticks: Seq<TickView>,
    known: u32,
) -> Option<Seq<HQMObjectPacket>> {
    if known < packet && packet - known < 192 && packet - known < ticks.len() {
        Some(ticks[packet - known].packets)
    } else {
        None
    }
}

/// Objects are coded against the step that the client says it knows exactly if it
/// is not too old.
pub proof fn law_objects_are_coded_against_what_is_known(
    packet: u32,
    ticks: Seq<TickView>,
    known: u32,
)
    ensures
        base_packets(packet, ticks, known) == known_objects(packet, ticks, known),
{
}

/// An update carries the oldest messages that the client has not got yet, and as
/// many of them as there are, but 15 at most.
pub proof fn law_next_messages_are_sent(player: PlayerView, k: int)
    requires
        player.known_msgpos <= player.messages.len(),
    ensures
        ({
            let rest = player.messages.len() - player.known_msgpos;
            let sent = pending_messages(player);
            &&& sent.len() == (if rest < 15 {
                rest
            } else {
                15
            })
            &&& 0 <= k < sent.len() ==> sent[k] == player.messages[player.known_msgpos + k]
        }),
{
}

/// Offside counts before icing. Otherwise both warnings are shown.
pub proof fn law_rules_are_shown(game: GameView)
    ensures
        ({
            let n = rules_num(rules_state_of(game));
            let warns = |indication: HQMRuleIndication, v: int|
                if indication == HQMRuleIndication::Warning {
                    v
                } else {
                    0
                };
            &&& game.offside_indication == HQMRuleIndication::Yes ==> n == 4
            &&& game.offside_indication != HQMRuleIndication::Yes && game.icing_indication
                == HQMRuleIndication::Yes ==> n == 8
            &&& game.offside_indication != HQMRuleIndication::Yes && game.icing_indication
                != HQMRuleIndication::Yes ==> n == warns(game.offside_indication, 1) + warns(
                game.icing_indication,
                2,
            )
        }),
{
}

/// Which client measures its ping, and which one shows the rules.
pub proof fn law_versions_differ(version: HQMClientVersion)
    ensures
        version.pings() <==> version == HQMClientVersion::Ping || version
            == HQMClientVersion::PingRules,
        version.shows_rules() <==> version == HQMClientVersion::PingRules,
{
}

/// What an update says to a client that is in the game: who has scored how often,
/// the clock, through whose eyes it sees, its own time if it measures its ping,
/// and what the rules have to say if it shows them. Then come the 32 object slots
/// of the latest step, and the messages that it has not got yet.
pub proof fn law_update_says_what_is(game_id: u32, game: GameView, player: PlayerView)
    requires
        player.game_id == game_id,
        player.known_msgpos <= player.messages.len(),
        ticks_wf(game.saved_ticks),
        game.saved_ticks.len() > 0,
        forall|i: int| 0 <= i < 32 ==> packet_fits(#[trigger] game.saved_ticks[0].packets[i]),
    ensures
        ({
            let bytes = pack(update_bits(game_id, game, player));
            let version = player.client_version;
            let p: nat = match version {
                HQMClientVersion::Vanilla => 176,
                HQMClientVersion::Ping => 208,
                HQMClientVersion::PingRules => 240,
            };
            let base = known_objects(game.packet, game.saved_ticks, player.known_packet);
            let (objects, q) = read_slots(bytes, p + 64, base, 32);
            let rest = player.messages.len() - player.known_msgpos;
            let n: nat = if rest < 15 {
                rest as nat
            } else {
                15
            };
            &&& is_message(bytes, 5)
            &&& stream_value(bytes, 40, 32) == game_id
            &&& stream_value(bytes, 72, 32) == game.game_step
            &&& stream_value(bytes, 104, 1) == 1 <==> game.game_over
            &&& stream_value(bytes, 105, 8) == game.red_score % 256
            &&& stream_value(bytes, 113, 8) == game.blue_score % 256
            &&& stream_value(bytes, 121, 16) == game.time % 65536
            &&& stream_value(bytes, 137, 16) == (if game.is_intermission_goal {
                game.time_break % 65536
            } else {
                0
            })
            &&& stream_value(bytes, 153, 8) == game.period % 256
            &&& stream_value(bytes, 161, 8) == player.view_player_index as u32 % 256
            &&& version != HQMClientVersion::Vanilla ==> stream_value(bytes, 176, 32)
                == player.deltatime
            &&& version == HQMClientVersion::PingRules ==> stream_value(bytes, 208, 32)
                == rules_num(rules_state_of(game))
            &&& stream_value(bytes, p, 32) == game.packet
            &&& stream_value(bytes, p + 32, 32) == player.known_packet
            &&& objects.len() == 32
            &&& forall|i: int|
                0 <= i < 32 ==> #[trigger] objects[i] == game.saved_ticks[0].packets[i]
            &&& stream_value(bytes, q, 4) == n
            &&& stream_value(bytes, q + 4, 16) == player.known_msgpos as u32 % 65536
            &&& read_messages(bytes, q + 20, n).0 == Seq::new(
                n,
                |k: int| wire_message(player.messages[player.known_msgpos + k]),
            )
            &&& 0 <= 8 * bytes.len() - read_messages(bytes, q + 20, n).1 < 8
        }),
{
    let bytes = pack(update_bits(game_id, game, player));
    law_update_read_back(game_id, game, player);
    law_next_messages_are_sent(player, 0);
    let pending = pending_messages(player);
    assert(wire_messages(pending) =~= Seq::new(
        pending.len(),
        |k: int| wire_message(player.messages[player.known_msgpos + k]),
    ));
    law_byte_is_read(bytes, 0);
    law_byte_is_read(bytes, 1);
    law_byte_is_read(bytes, 2);
    law_byte_is_read(bytes, 3);
    law_byte_is_read(bytes, 4);
}

/// A client that is not in the game yet is told its number, and nothing else.
pub proof fn law_new_game_is_told(game_id: u32, game: GameView, player: PlayerView)
    requires
        player.game_id != game_id,
    ensures
        ({
            let bytes = pack(update_bits(game_id, game, player));
            &&& is_message(bytes, 6)
            &&& stream_value(bytes, 40, 32) == game_id
            &&& bytes.len() == 9
        }),
{
    let bytes = pack(update_bits(game_id, game, player));
    law_game_id_read_back(game_id, game, player);
    law_byte_is_read(bytes, 0);
    law_byte_is_read(bytes, 1);
    law_byte_is_read(bytes, 2);
    law_byte_is_read(bytes, 3);
    law_byte_is_read(bytes, 4);
}

/// A chat message is sent up to its 63rd byte; a name is sent in 31 bytes, with
/// zeros behind it if it is shorter. Of each byte the seven low bits are sent.
pub proof fn law_texts_are_sent(text: Seq<char>, k: int)
    ensures
        ({
            let bytes = encode_utf8(text);
            &&& cut_to_seven(chat_bytes(text)).len() == (if bytes.len() < 63 {
                bytes.len()
            } else {
                63
            })
            &&& 0 <= k < bytes.len() && k < 63 ==> cut_to_seven(chat_bytes(text))[k] == bytes[k]
                % 128
            &&& cut_to_seven(name_bytes(text)).len() == 31
            &&& 0 <= k < 31 ==> cut_to_seven(name_bytes(text))[k] == byte_at(bytes, k) % 128
        }),
{
}

/// Who scored, who sent a line and whom news is about is sent as the number of the
/// slot. Where there is nobody, all six bits are set.
pub proof fn law_numbers_in_messages(index: usize, object: usize, team: HQMTeam)
    requires
        index < 63,
        object < 63,
    ensures
        ({
            let t: nat = match team {
                HQMTeam::Red => 0,
                HQMTeam::Blue => 1,
            };
            let empty = Seq::<char>::empty();
            let chat = |i: Option<usize>|
                wire_message(MessageView::Chat { player_index: i, message: empty });
            let goal = |i: Option<usize>, j: Option<usize>|
                wire_message(
                    MessageView::Goal { team, goal_player_index: i, assist_player_index: j },
                );
            let news = |o: Option<(usize, HQMTeam)>, in_server: bool|
                wire_message(
                    MessageView::PlayerUpdate {
                        player_name: empty,
                        object: o,
                        player_index: index,
                        in_server,
                    },
                );
            &&& chat(Some(index)) matches WireMessage::Chat { player_index, .. } && player_index
                == index
            &&& chat(None) matches WireMessage::Chat { player_index, .. } && player_index == 63
            &&& goal(Some(index), Some(object)) == (WireMessage::Goal {
                team: t,
                goal_player_index: index as nat,
                assist_player_index: object as nat,
            })
            &&& goal(None, None) == (WireMessage::Goal {
                team: t,
                goal_player_index: 63,
                assist_player_index: 63,
            })
            &&& forall|b: bool|
                #![trigger news(Some((object, team)), b)]
                news(Some((object, team)), b) matches WireMessage::PlayerUpdate {
                    player_index,
                    in_server,
                    team: team_num,
                    object: object_num,
                    ..
                } && player_index == index && in_server == b && team_num == t && object_num
                    == object
            &&& forall|b: bool|
                #![trigger news(None, b)]
                news(None, b) matches WireMessage::PlayerUpdate {
                    player_index,
                    in_server,
                    team: team_num,
                    object: object_num,
                    ..
                } && player_index == index && in_server == b && team_num == 3 && object_num == 63
        }),
{
}

/// A coordinate that has moved little is sent as the difference: in three bits, in
/// six or in twelve, with two bits before it. Otherwise it is sent whole.
pub proof fn law_small_moves_are_sent_short(s: Seq<bool>, n: nat, v: u32, old_v: Option<u32>)
    ensures
        ({
            let width = put_pos(s, n, v, old_v).len() - s.len();
            match old_v {
                Some(o) => width == (if -4 <= v - o <= 3 {
                    5
                } else if -32 <= v - o <= 31 {
                    8
                } else if -2048 <= v - o <= 2047 {
                    14
                } else {
                    2 + n
                }),
                None => width == 2 + n,
            }
        }),
{
    lemma_put_pos_len(s, n, v, old_v);
}

/// The bits that a coordinate of `n` bits takes: fewer if it has moved little.
#[verifier::opaque]
pub open spec fn move_width(n: int, v: u32, old_v: Option<u32>) -> int {
    match old_v {
        Some(o) => if -4 <= v - o <= 3 {
            5
        } else if -32 <= v - o <= 31 {
            8
        } else if -2048 <= v - o <= 2047 {
            14
        } else {
            2 + n
        },
        None => 2 + n,
    }
}

/// The bits that an object slot takes, if what was in it before is known. Only the
/// moves of an object of the same kind are sent.
pub open spec fn slot_width(current: HQMObjectPacket, old: Option<HQMObjectPacket>) -> int {
    match (current, old) {
        (HQMObjectPacket::Empty, _) => 1,
        (HQMObjectPacket::Puck(p), Some(HQMObjectPacket::Puck(o))) => 3 + move_width(
            17,
            p.pos.0,
            Some(o.pos.0),
        ) + move_width(17, p.pos.1, Some(o.pos.1)) + move_width(17, p.pos.2, Some(o.pos.2))
            + move_width(31, p.rot.0, Some(o.rot.0)) + move_width(31, p.rot.1, Some(o.rot.1)),
        (HQMObjectPacket::Puck(_), _) => 126,
        (HQMObjectPacket::Skater(p), Some(HQMObjectPacket::Skater(o))) => 3 + move_width(
            17,
            p.pos.0,
            Some(o.pos.0),
        ) + move_width(17, p.pos.1, Some(o.pos.1)) + move_width(17, p.pos.2, Some(o.pos.2))
            + move_width(31, p.rot.0, Some(o.rot.0)) + move_width(31, p.rot.1, Some(o.rot.1))
            + move_width(13, p.stick_pos.0, Some(o.stick_pos.0)) + move_width(
            13,
            p.stick_pos.1,
            Some(o.stick_pos.1),
        ) + move_width(13, p.stick_pos.2, Some(o.stick_pos.2)) + move_width(
            25,
            p.stick_rot.0,
            Some(o.stick_rot.0),
        ) + move_width(25, p.stick_rot.1, Some(o.stick_rot.1)) + move_width(
            16,
            p.head_rot,
            Some(o.head_rot),
        ) + move_width(16, p.body_rot, Some(o.body_rot)),
        (HQMObjectPacket::Skater(_), _) => 261,
    }
}

/// The bits that the first `n` object slots take.
pub open spec fn slots_width(
    current: Seq<HQMObjectPacket>,
    base: Option<Seq<HQMObjectPacket>>,
    n: nat,
) -> int
    decreases n,
{
    if n == 0 {
        0
    } else {
        slots_width(current, base, (n - 1) as nat) + slot_width(
            current[n - 1],
            match base {
                Some(b) => Some(b[n - 1]),
                None => None,
            },
        )
    }
}

/// The bits that a coordinate takes.
proof fn lemma_move_width(s: Seq<bool>, n: nat, v: u32, old_v: Option<u32>)
    ensures
        put_pos(s, n, v, old_v).len() == s.len() + move_width(n as int, v, old_v),
        move_width(n as int, v, None) == 2 + n,
{
    reveal(move_width);
    lemma_put_pos_len(s, n, v, old_v);
}

proof fn lemma_puck_width(s: Seq<bool>, p: HQMPuckPacket, old: Option<HQMPuckPacket>)
    ensures
        put_puck(s, p, old).len() == s.len() + slot_width(
            HQMObjectPacket::Puck(p),
            match old {
                Some(o) => Some(HQMObjectPacket::Puck(o)),
                None => None,
            },
        ),
{
    let s0 = put_bits(put_bits(s, 1, 1), 2, 1);
    let o0 = old_of(old, |o: HQMPuckPacket| o.pos.0);
    let s1 = put_pos(s0, 17, p.pos.0, o0);
    lemma_move_width(s0, 17, p.pos.0, o0);
    let o1 = old_of(old, |o: HQMPuckPacket| o.pos.1);
    let s2 = put_pos(s1, 17, p.pos.1, o1);
    lemma_move_width(s1, 17, p.pos.1, o1);
    let o2 = old_of(old, |o: HQMPuckPacket| o.pos.2);
    let s3 = put_pos(s2, 17, p.pos.2, o2);
    lemma_move_width(s2, 17, p.pos.2, o2);
    let o3 = old_of(old, |o: HQMPuckPacket| o.rot.0);
    let s4 = put_pos(s3, 31, p.rot.0, o3);
    lemma_move_width(s3, 31, p.rot.0, o3);
    let o4 = old_of(old, |o: HQMPuckPacket| o.rot.1);
    let s5 = put_pos(s4, 31, p.rot.1, o4);
    lemma_move_width(s4, 31, p.rot.1, o4);
    assert(s5 == put_puck(s, p, old));
}

proof fn lemma_skater_width(s: Seq<bool>, p: HQMSkaterPacket, old: Option<HQMSkaterPacket>)
    ensures
        put_skater(s, p, old).len() == s.len() + slot_width(
            HQMObjectPacket::Skater(p),
            match old {
                Some(o) => Some(HQMObjectPacket::Skater(o)),
                None => None,
            },
        ),
{
    let s0 = put_bits(put_bits(s, 1, 1), 2, 0);
    let o0 = old_of(old, |o: HQMSkaterPacket| o.pos.0);
    let s1 = put_pos(s0, 17, p.pos.0, o0);
    lemma_move_width(s0, 17, p.pos.0, o0);
    let o1 = old_of(old, |o: HQMSkaterPacket| o.pos.1);
    let s2 = put_pos(s1, 17, p.pos.1, o1);
    lemma_move_width(s1, 17, p.pos.1, o1);
    let o2 = old_of(old, |o: HQMSkaterPacket| o.pos.2);
    let s3 = put_pos(s2, 17, p.pos.2, o2);
    lemma_move_width(s2, 17, p.pos.2, o2);
    let o3 = old_of(old, |o: HQMSkaterPacket| o.rot.0);
    let s4 = put_pos(s3, 31, p.rot.0, o3);
    lemma_move_width(s3, 31, p.rot.0, o3);
    let o4 = old_of(old, |o: HQMSkaterPacket| o.rot.1);
    let s5 = put_pos(s4, 31, p.rot.1, o4);
    lemma_move_width(s4, 31, p.rot.1, o4);
    let o5 = old_of(old, |o: HQMSkaterPacket| o.stick_pos.0);
    let s6 = put_pos(s5, 13, p.stick_pos.0, o5);
    lemma_move_width(s5, 13, p.stick_pos.0, o5);
    let o6 = old_of(old, |o: HQMSkaterPacket| o.stick_pos.1);
    let s7 = put_pos(s6, 13, p.stick_pos.1, o6);
    lemma_move_width(s6, 13, p.stick_pos.1, o6);
    let o7 = old_of(old, |o: HQMSkaterPacket| o.stick_pos.2);
    let s8 = put_pos(s7, 13, p.stick_pos.2, o7);
    lemma_move_width(s7, 13, p.stick_pos.2, o7);
    let o8 = old_of(old, |o: HQMSkaterPacket| o.stick_rot.0);
    let s9 = put_pos(s8, 25, p.stick_rot.0, o8);
    lemma_move_width(s8, 25, p.stick_rot.0, o8);
    let o9 = old_of(old, |o: HQMSkaterPacket| o.stick_rot.1);
    let s10 = put_pos(s9, 25, p.stick_rot.1, o9);
    lemma_move_width(s9, 25, p.stick_rot.1, o9);
    let o10 = old_of(old, |o: HQMSkaterPacket| o.head_rot);
    let s11 = put_pos(s10, 16, p.head_rot, o10);
    lemma_move_width(s10, 16, p.head_rot, o10);
    let o11 = old_of(old, |o: HQMSkaterPacket| o.body_rot);
    let s12 = put_pos(s11, 16, p.body_rot, o11);
    lemma_move_width(s11, 16, p.body_rot, o11);
    assert(s12 == put_skater(s, p, old));
}

/// Of an object that the client knows only the moves are sent.
pub proof fn law_moves_are_sent(
    s: Seq<bool>,
    current: HQMObjectPacket,
    old: Option<HQMObjectPacket>,
)
    ensures
        put_slot(s, current, old).len() == s.len() + slot_width(current, old),
{
    match current {
        HQMObjectPacket::Puck(p) => {
            lemma_puck_width(
                s,
                p,
                match old {
                    Some(HQMObjectPacket::Puck(o)) => Some(o),
                    _ => None,
                },
            );
        },
        HQMObjectPacket::Skater(p) => {
            lemma_skater_width(
                s,
                p,
                match old {
                    Some(HQMObjectPacket::Skater(o)) => Some(o),
                    _ => None,
                },
            );
        },
        HQMObjectPacket::Empty => {},
    }
}

proof fn lemma_slots_width(
    s: Seq<bool>,
    current: Seq<HQMObjectPacket>,
    base: Option<Seq<HQMObjectPacket>>,
    n: nat,
)
    ensures
        put_slots(s, current, base, n).len() == s.len() + slots_width(current, base, n),
    decreases n,
{
    if n > 0 {
        lemma_slots_width(s, current, base, (n - 1) as nat);
        law_moves_are_sent(
            put_slots(s, current, base, (n - 1) as nat),
            current[n - 1],
            match base {
                Some(b) => Some(b[n - 1]),
                None => None,
            },
        );
    }
}

/// Of all 32 object slots only the moves are sent to a client that knows a step
/// that is not too old.
pub proof fn law_known_objects_are_sent_as_moves(
    s: Seq<bool>,
    packet: u32,
    ticks: Seq<TickView>,
    known: u32,
)
    ensures
        put_objects(s, packet, ticks, known).len() == align_pos(s.len()) + 64 + slots_width(
            ticks[0].packets,
            known_objects(packet, ticks, known),
            32,
        ),
{
    lemma_slots_width(
        put_u32(put_u32(s, packet), known),
        ticks[0].packets,
        base_packets(packet, ticks, known),
        32,
    );
}

/// The replay gets the latest step behind what it holds already: all the bytes
/// that it takes, and one more if they are full to the last bit. All messages are
/// in it then. Nothing else about the game changes.
pub proof fn law_step_is_added_to_the_replay(game: GameView, buf: Seq<u8>)
    requires
        game.replay_messages.len() <= usize::MAX,
        replay_bits(game).len() < 8 * buf.len(),
    ensures
        ({
            let after = game.replayed(buf);
            let step = pack(replay_bits(game));
            let n = game.replay_data.len() as int;
            &&& after == (GameView {
                replay_last_packet: game.packet,
                replay_msg_pos: game.replay_messages.len() as usize,
                replay_data: after.replay_data,
                ..game
            })
            &&& after.replay_data.len() == n + replay_bits(game).len() / 8 + 1
            &&& after.replay_data.take(n) == game.replay_data
            &&& after.replay_data.subrange(n, n + step.len()) == step
            &&& replay_bits(game).len() % 8 == 0 ==> after.replay_data.last() == buf[step.len() as int]
        }),
{
    let after = game.replayed(buf);
    let step = pack(replay_bits(game));
    let n = game.replay_data.len() as int;
    assert(after.replay_data.take(n) =~= game.replay_data);
    assert(after.replay_data.subrange(n, n + step.len()) =~= step);
}

/// What the replay says of a step: the score, the clock, the 32 object slots, and
/// all messages that it does not hold yet.
pub proof fn law_replay_says_what_is(game: GameView)
    requires
        ticks_wf(game.saved_ticks),
        game.replay_msg_pos <= game.replay_messages.len(),
        game.saved_ticks.len() > 0,
        forall|i: int| 0 <= i < 32 ==> packet_fits(#[trigger] game.saved_ticks[0].packets[i]),
    ensures
        ({
            let bytes = pack(replay_bits(game));
            let base = known_objects(game.packet, game.saved_ticks, game.replay_last_packet);
            let (objects, q) = read_slots(bytes, 136, base, 32);
            let n = (game.replay_messages.len() - game.replay_msg_pos) as nat;
            &&& byte_at(bytes, 0) == 5
            &&& stream_value(bytes, 8, 1) == 1 <==> game.game_over
            &&& stream_value(bytes, 9, 8) == game.red_score % 256
            &&& stream_value(bytes, 17, 8) == game.blue_score % 256
            &&& stream_value(bytes, 25, 16) == game.time % 65536
            &&& stream_value(bytes, 41, 16) == (if game.is_intermission_goal {
                game.time_break % 65536
            } else {
                0
            })
            &&& stream_value(bytes, 57, 8) == game.period % 256
            &&& stream_value(bytes, 72, 32) == game.packet
            &&& stream_value(bytes, 104, 32) == game.replay_last_packet
            &&& objects.len() == 32
            &&& forall|i: int|
                0 <= i < 32 ==> #[trigger] objects[i] == game.saved_ticks[0].packets[i]
            &&& stream_value(bytes, q, 16) == n as u32 % 65536
            &&& stream_value(bytes, q + 16, 16) == game.replay_msg_pos as u32 % 65536
            &&& read_messages(bytes, q + 32, n).0 == Seq::new(
                n,
                |k: int| wire_message(game.replay_messages[game.replay_msg_pos + k]),
            )
            &&& 0 <= 8 * bytes.len() - read_messages(bytes, q + 32, n).1 < 8
        }),
{
    let bytes = pack(replay_bits(game));
    law_replay_read_back(game);
    law_byte_is_read(bytes, 0);
    let ms = game.replay_messages.skip(game.replay_msg_pos as int);
    assert(wire_messages(ms) =~= Seq::new(
        ms.len(),
        |k: int| wire_message(game.replay_messages[game.replay_msg_pos + k]),
    ));
}

/// A client that asks what server this is gets an answer, and nothing changes: its
/// own number back, how many players there are, how many make a team, and the
/// first 32 bytes of the name of the server.
pub proof fn law_server_introduces_itself<B: HQMServerBehaviour>(
    b0: B,
    s0: ServerView,
    addr: HQMSocketAddr,
    msg: Seq<u8>,
    now: u64,
    b1: B,
    s1: ServerView,
    reaction: ReactionView,
)
    requires
        s0.players.len() <= u32::MAX,
        message_handled(b0, s0, addr, msg, now, b1, s1, reaction),
        is_message(msg, 0),
    ensures
        b1 == b0,
        s1 == s0,
        reaction is Reply,
        ({
            let bytes = reaction->Reply_0;
            let name = encode_utf8(s0.config.server_name);
            &&& bytes.len() == 44
            &&& is_message(bytes, 1)
            &&& byte_at(bytes, 5) == 55
            &&& stream_value(bytes, 48, 32) == stream_value(msg, 48, 32)
            &&& byte_at(bytes, 10) == taken(s0.players, s0.players.len() as int).len() % 256
            &&& stream_value(bytes, 88, 4) == 4
            &&& exists|n: u32| #[trigger]
                b0.number_of_players(n) && stream_value(bytes, 92, 4) == n % 16
            &&& forall|k: int|
                0 <= k < 32 ==> #[trigger] byte_at(bytes, 12 + k) == byte_at(name, k)
        }),
{
    lemma_header(msg);
    reveal(info_sent);
    law_players_are_counted(s0.players);
    lemma_count_bound(s0.players);
    let bytes = reaction->Reply_0;
    let name = encode_utf8(s0.config.server_name);
    let ping = stream_value(msg, 48, 32) as u32;
    let count = count_players(s0.players) as u32 as nat;
    let n = choose|n: u32| #[trigger]
        b0.number_of_players(n) && bytes == info_reply(s0, n, ping);
    lemma_word_fits(msg);
    law_info_read_back(ping, count, n, s0.config.server_name, 0);
    law_byte_is_read(bytes, 0);
    law_byte_is_read(bytes, 1);
    law_byte_is_read(bytes, 2);
    law_byte_is_read(bytes, 3);
    law_byte_is_read(bytes, 4);
    law_byte_is_read(bytes, 5);
    law_byte_is_read(bytes, 10);
    assert forall|k: int| 0 <= k < 32 implies #[trigger] byte_at(bytes, 12 + k) == byte_at(
        name,
        k,
    ) by {
        law_info_read_back(ping, count, n, s0.config.server_name, k);
        law_byte_is_read(bytes, (12 + k) as nat);
    }
}

proof fn lemma_word_fits(bytes: Seq<u8>)
    ensures
        stream_value(bytes, 48, 32) <= u32::MAX,
{
    reveal(stream_value);
    lemma2_to64();
    lemma_bits_value_bound(stream_bits(bytes, 48, 32));
}

proof fn lemma_count_bound(slots: Seq<Option<PlayerView>>)
    ensures
        count_players(slots) <= slots.len(),
    decreases slots.len(),
{
    if slots.len() > 0 {
        lemma_count_bound(slots.drop_last());
    }
}

} // verus!
