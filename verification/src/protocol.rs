//! Messages and objects as they are sent to clients.
use crate::bits::{bit, low_bits, pad_bytes, put_bits, put_u32};
use crate::hqm_game::{
    messages_view, object_packets, ticks_view, ticks_wf, HQMGame, HQMGameObject, HQMMessage,
    HQMObjectPacket, HQMPuckPacket, HQMSavedTick, HQMSkaterPacket, MessageView, TickView,
    OBJECT_SLOTS,
};
use crate::hqm_parse::{lemma_put_pos_len, put_pos, HQMMessageWriter};
use std::collections::VecDeque;
use std::rc::Rc;
use vstd::prelude::*;
use vstd::utf8::encode_utf8;

verus! {

/// A player or object index as it is sent; all bits are set where there is none.
pub open spec fn index_num(index: Option<usize>) -> u32 {
    match index {
        Some(x) => x as u32,
        None => u32::MAX,
    }
}

/// The seven low bits of each byte.
pub open spec fn seven_bits(bytes: Seq<u8>) -> Seq<bool> {
    Seq::new(7 * bytes.len(), |i: int| bit(bytes[i / 7] as nat, (i % 7) as nat))
}

/// The longest chat message that is sent, in bytes. Of a longer one the rest is cut off.
pub const MAX_CHAT_BYTES: usize = 63;

/// The bytes of a player name that are sent. Shorter names are followed by zeros.
pub const NAME_BYTES: usize = 31;

/// The bytes of a chat message that are sent.
pub open spec fn chat_bytes(message: Seq<char>) -> Seq<u8> {
    let bytes = encode_utf8(message);
    if bytes.len() <= MAX_CHAT_BYTES {
        bytes
    } else {
        bytes.take(MAX_CHAT_BYTES as int)
    }
}

/// The bytes of a player name that are sent.
pub open spec fn name_bytes(name: Seq<char>) -> Seq<u8> {
    pad_bytes(encode_utf8(name), NAME_BYTES as nat)
}

/// `s` followed by a message.
pub open spec fn put_message(s: Seq<bool>, message: MessageView) -> Seq<bool> {
    match message {
        MessageView::Chat { player_index, message } => {
            let bytes = chat_bytes(message);
            let s = put_bits(s, 6, 2);
            let s = put_bits(s, 6, index_num(player_index) as nat);
            let s = put_bits(s, 6, bytes.len());
            s + seven_bits(bytes)
        },
        MessageView::Goal { team, goal_player_index, assist_player_index } => {
            let s = put_bits(s, 6, 1);
            let s = put_bits(s, 2, team.num() as nat);
            let s = put_bits(s, 6, index_num(goal_player_index) as nat);
            put_bits(s, 6, index_num(assist_player_index) as nat)
        },
        MessageView::PlayerUpdate { player_name, object, player_index, in_server } => {
            let (object_index, team_num): (u32, u32) = match object {
                Some((i, team)) => (i as u32, team.num()),
                None => (u32::MAX, u32::MAX),
            };
            let s = put_bits(s, 6, 0);
            let s = put_bits(s, 6, player_index as u32 as nat);
            let s = put_bits(
                s,
                1,
                if in_server {
                    1
                } else {
                    0
                },
            );
            let s = put_bits(s, 2, team_num as nat);
            let s = put_bits(s, 6, object_index as nat);
            s + seven_bits(name_bytes(player_name))
        },
    }
}

/// Writes the seven low bits of `n` bytes: those of `bytes`, cut or followed by zeros.
fn write_seven_bits(writer: &mut HQMMessageWriter, bytes: &[u8], n: usize)
    requires
        old(writer).wf(),
        old(writer).bits().len() + 7 * n <= old(writer).capacity(),
    ensures
        final(writer).wrote(
            *old(writer),
            old(writer).bits() + seven_bits(pad_bytes(bytes@, n as nat)),
        ),
{
    let ghost pre = *writer;
    let ghost padded = pad_bytes(bytes@, n as nat);
    assert(pre.bits() + seven_bits(padded.take(0)) =~= pre.bits());
    let mut i: usize = 0;
    while i < n
        invariant
            i <= n,
            pre.wf(),
            padded == pad_bytes(bytes@, n as nat),
            pre.bits().len() + 7 * n <= pre.capacity(),
            writer.wrote(pre, pre.bits() + seven_bits(padded.take(i as int))),
        decreases n - i,
    {
        let v: u8 = if i < bytes.len() {
            bytes[i]
        } else {
            0
        };
        writer.write_bits(7, v as u32);
        proof {
            assert(seven_bits(padded.take(i + 1)) =~= seven_bits(padded.take(i as int)) + low_bits(
                v as nat,
                7,
            ));
            assert(writer.bits() =~= pre.bits() + seven_bits(padded.take(i + 1)));
        }
        i = i + 1;
    }
    assert(padded.take(n as int) =~= padded);
}

fn index_to_num(index: Option<usize>) -> (n: u32)
    ensures
        n == index_num(index),
{
    match index {
        Some(x) => x as u32,
        None => u32::MAX,
    }
}

/// Writes a message.
pub fn write_message(writer: &mut HQMMessageWriter, message: &HQMMessage)
    requires
        old(writer).wf(),
        put_message(old(writer).bits(), message@).len() <= old(writer).capacity(),
    ensures
        final(writer).wrote(*old(writer), put_message(old(writer).bits(), message@)),
{
    match message {
        HQMMessage::Chat { player_index, message } => {
            let message_bytes = message.as_str().as_bytes();
            let size: usize = if message_bytes.len() < MAX_CHAT_BYTES {
                message_bytes.len()
            } else {
                MAX_CHAT_BYTES
            };
            assert(pad_bytes(message_bytes@, size as nat) =~= chat_bytes(message@));
            writer.write_bits(6, 2);
            writer.write_bits(6, index_to_num(*player_index));
            writer.write_bits(6, size as u32);
            write_seven_bits(writer, message_bytes, size);
        },
        HQMMessage::Goal { team, goal_player_index, assist_player_index } => {
            writer.write_bits(6, 1);
            writer.write_bits(2, team.get_num());
            writer.write_bits(6, index_to_num(*goal_player_index));
            writer.write_bits(6, index_to_num(*assist_player_index));
        },
        HQMMessage::PlayerUpdate { player_name, object, player_index, in_server } => {
            let (object_index, team_num): (u32, u32) = match object {
                Some((i, team)) => (*i as u32, team.get_num()),
                None => (u32::MAX, u32::MAX),
            };
            writer.write_bits(6, 0);
            writer.write_bits(6, *player_index as u32);
            writer.write_bits(
                1,
                if *in_server {
                    1
                } else {
                    0
                },
            );
            writer.write_bits(2, team_num);
            writer.write_bits(6, object_index);
            write_seven_bits(writer, player_name.as_str().as_bytes(), NAME_BYTES);
        },
    }
}

/// A field of an earlier state, where there is an earlier state.
pub open spec fn old_of<A>(old_p: Option<A>, field: spec_fn(A) -> u32) -> Option<u32> {
    match old_p {
        Some(o) => Some(field(o)),
        None => None,
    }
}

/// `s` followed by a puck, coded against an earlier state of it where there is one.
pub open spec fn put_puck(
    s: Seq<bool>,
    p: HQMPuckPacket,
    old_p: Option<HQMPuckPacket>,
) -> Seq<bool> {
    let s = put_bits(s, 1, 1);
    let s = put_bits(s, 2, 1);
    let s = put_pos(s, 17, p.pos.0, old_of(old_p, |o: HQMPuckPacket| o.pos.0));
    let s = put_pos(s, 17, p.pos.1, old_of(old_p, |o: HQMPuckPacket| o.pos.1));
    let s = put_pos(s, 17, p.pos.2, old_of(old_p, |o: HQMPuckPacket| o.pos.2));
    let s = put_pos(s, 31, p.rot.0, old_of(old_p, |o: HQMPuckPacket| o.rot.0));
    put_pos(s, 31, p.rot.1, old_of(old_p, |o: HQMPuckPacket| o.rot.1))
}

/// `s` followed by a skater, coded against an earlier state of it where there is one.
pub open spec fn put_skater(
    s: Seq<bool>,
    p: HQMSkaterPacket,
    old_p: Option<HQMSkaterPacket>,
) -> Seq<bool> {
    let s = put_bits(s, 1, 1);
    let s = put_bits(s, 2, 0);
    let s = put_pos(s, 17, p.pos.0, old_of(old_p, |o: HQMSkaterPacket| o.pos.0));
    let s = put_pos(s, 17, p.pos.1, old_of(old_p, |o: HQMSkaterPacket| o.pos.1));
    let s = put_pos(s, 17, p.pos.2, old_of(old_p, |o: HQMSkaterPacket| o.pos.2));
    let s = put_pos(s, 31, p.rot.0, old_of(old_p, |o: HQMSkaterPacket| o.rot.0));
    let s = put_pos(s, 31, p.rot.1, old_of(old_p, |o: HQMSkaterPacket| o.rot.1));
    let s = put_pos(s, 13, p.stick_pos.0, old_of(old_p, |o: HQMSkaterPacket| o.stick_pos.0));
    let s = put_pos(s, 13, p.stick_pos.1, old_of(old_p, |o: HQMSkaterPacket| o.stick_pos.1));
    let s = put_pos(s, 13, p.stick_pos.2, old_of(old_p, |o: HQMSkaterPacket| o.stick_pos.2));
    let s = put_pos(s, 25, p.stick_rot.0, old_of(old_p, |o: HQMSkaterPacket| o.stick_rot.0));
    let s = put_pos(s, 25, p.stick_rot.1, old_of(old_p, |o: HQMSkaterPacket| o.stick_rot.1));
    let s = put_pos(s, 16, p.head_rot, old_of(old_p, |o: HQMSkaterPacket| o.head_rot));
    put_pos(s, 16, p.body_rot, old_of(old_p, |o: HQMSkaterPacket| o.body_rot))
}

/// `s` followed by the contents of an object slot, coded against what an earlier
/// step had in it if that is an object of the same kind.
pub open spec fn put_slot(
    s: Seq<bool>,
    current: HQMObjectPacket,
    old_packet: Option<HQMObjectPacket>,
) -> Seq<bool> {
    match current {
        HQMObjectPacket::Puck(puck) => put_puck(
            s,
            puck,
            match old_packet {
                Some(HQMObjectPacket::Puck(o)) => Some(o),
                _ => None,
            },
        ),
        HQMObjectPacket::Skater(skater) => put_skater(
            s,
            skater,
            match old_packet {
                Some(HQMObjectPacket::Skater(o)) => Some(o),
                _ => None,
            },
        ),
        HQMObjectPacket::Empty => put_bits(s, 1, 0),
    }
}

/// `s` followed by the first `n` object slots.
pub open spec fn put_slots(
    s: Seq<bool>,
    current: Seq<HQMObjectPacket>,
    base: Option<Seq<HQMObjectPacket>>,
    n: nat,
) -> Seq<bool>
    decreases n,
{
    if n == 0 {
        s
    } else {
        put_slot(
            put_slots(s, current, base, (n - 1) as nat),
            current[n - 1],
            match base {
                Some(b) => Some(b[n - 1]),
                None => None,
            },
        )
    }
}

/// How many steps back a client may be for the objects to be coded against what it knows.
pub const MAX_STEPS_BACK: usize = 192;

/// The step that the objects are coded against: the one that the client says it
/// knows, if it is earlier than the latest step and still at hand.
pub open spec fn base_packets(
    packet: u32,
    ticks: Seq<TickView>,
    known_packet: u32,
) -> Option<Seq<HQMObjectPacket>> {
    let diff = packet - known_packet;
    if known_packet != u32::MAX && 0 < diff < ticks.len() && diff < MAX_STEPS_BACK {
        Some(ticks[diff].packets)
    } else {
        None
    }
}

/// `s` followed by the objects of the latest step, for a client that knows step `known_packet`.
pub open spec fn put_objects(
    s: Seq<bool>,
    packet: u32,
    ticks: Seq<TickView>,
    known_packet: u32,
) -> Seq<bool> {
    put_slots(
        put_u32(put_u32(s, packet), known_packet),
        ticks[0].packets,
        base_packets(packet, ticks, known_packet),
        OBJECT_SLOTS as nat,
    )
}

/// An object slot takes between one and 261 bits.
proof fn lemma_put_slot_len(
    s: Seq<bool>,
    current: HQMObjectPacket,
    old_packet: Option<HQMObjectPacket>,
)
    ensures
        s.len() < put_slot(s, current, old_packet).len() <= s.len() + 261,
{
    broadcast use lemma_put_pos_len;

}

/// The bits that some more object slots take.
pub proof fn lemma_put_slots_len(
    s: Seq<bool>,
    current: Seq<HQMObjectPacket>,
    base: Option<Seq<HQMObjectPacket>>,
    m: nat,
    n: nat,
)
    requires
        m <= n,
    ensures
        put_slots(s, current, base, m).len() <= put_slots(s, current, base, n).len(),
        put_slots(s, current, base, n).len() <= put_slots(s, current, base, m).len() + 261 * (n - m),
    decreases n,
{
    if m < n {
        lemma_put_slots_len(s, current, base, m, (n - 1) as nat);
        lemma_put_slot_len(
            put_slots(s, current, base, (n - 1) as nat),
            current[n - 1],
            match base {
                Some(b) => Some(b[n - 1]),
                None => None,
            },
        );
    }
}

fn write_puck(writer: &mut HQMMessageWriter, p: &HQMPuckPacket, old_p: Option<HQMPuckPacket>)
    requires
        old(writer).wf(),
        put_puck(old(writer).bits(), *p, old_p).len() <= old(writer).capacity(),
    ensures
        final(writer).wrote(*old(writer), put_puck(old(writer).bits(), *p, old_p)),
{
    broadcast use lemma_put_pos_len;

    writer.write_bits(1, 1);
    writer.write_bits(2, 1); // Puck type
    writer.write_pos(
        17,
        p.pos.0,
        match old_p {
            Some(o) => Some(o.pos.0),
            None => None,
        },
    );
    writer.write_pos(
        17,
        p.pos.1,
        match old_p {
            Some(o) => Some(o.pos.1),
            None => None,
        },
    );
    writer.write_pos(
        17,
        p.pos.2,
        match old_p {
            Some(o) => Some(o.pos.2),
            None => None,
        },
    );
    writer.write_pos(
        31,
        p.rot.0,
        match old_p {
            Some(o) => Some(o.rot.0),
            None => None,
        },
    );
    writer.write_pos(
        31,
        p.rot.1,
        match old_p {
            Some(o) => Some(o.rot.1),
            None => None,
        },
    );
}

fn write_skater(writer: &mut HQMMessageWriter, p: &HQMSkaterPacket, old_p: Option<HQMSkaterPacket>)
    requires
        old(writer).wf(),
        put_skater(old(writer).bits(), *p, old_p).len() <= old(writer).capacity(),
    ensures
        final(writer).wrote(*old(writer), put_skater(old(writer).bits(), *p, old_p)),
{
    broadcast use lemma_put_pos_len;

    writer.write_bits(1, 1);
    writer.write_bits(2, 0); // Skater type
    writer.write_pos(
        17,
        p.pos.0,
        match old_p {
            Some(o) => Some(o.pos.0),
            None => None,
        },
    );
    writer.write_pos(
        17,
        p.pos.1,
        match old_p {
            Some(o) => Some(o.pos.1),
            None => None,
        },
    );
    writer.write_pos(
        17,
        p.pos.2,
        match old_p {
            Some(o) => Some(o.pos.2),
            None => None,
        },
    );
    writer.write_pos(
        31,
        p.rot.0,
        match old_p {
            Some(o) => Some(o.rot.0),
            None => None,
        },
    );
    writer.write_pos(
        31,
        p.rot.1,
        match old_p {
            Some(o) => Some(o.rot.1),
            None => None,
        },
    );
    writer.write_pos(
        13,
        p.stick_pos.0,
        match old_p {
            Some(o) => Some(o.stick_pos.0),
            None => None,
        },
    );
    writer.write_pos(
        13,
        p.stick_pos.1,
        match old_p {
            Some(o) => Some(o.stick_pos.1),
            None => None,
        },
    );
    writer.write_pos(
        13,
        p.stick_pos.2,
        match old_p {
            Some(o) => Some(o.stick_pos.2),
            None => None,
        },
    );
    writer.write_pos(
        25,
        p.stick_rot.0,
        match old_p {
            Some(o) => Some(o.stick_rot.0),
            None => None,
        },
    );
    writer.write_pos(
        25,
        p.stick_rot.1,
        match old_p {
            Some(o) => Some(o.stick_rot.1),
            None => None,
        },
    );
    writer.write_pos(
        16,
        p.head_rot,
        match old_p {
            Some(o) => Some(o.head_rot),
            None => None,
        },
    );
    writer.write_pos(
        16,
        p.body_rot,
        match old_p {
            Some(o) => Some(o.body_rot),
            None => None,
        },
    );
}

/// Writes the objects of the latest step, for a client that knows step `known_packet`.
pub fn write_objects(
    writer: &mut HQMMessageWriter,
    game: &HQMGame,
    packets: &VecDeque<HQMSavedTick>,
    known_packet: u32,
)
    requires
        old(writer).wf(),
        packets@.len() > 0,
        ticks_wf(ticks_view(packets@)),
        put_objects(old(writer).bits(), game.packet, ticks_view(packets@), known_packet).len()
            <= old(writer).capacity(),
    ensures
        final(writer).wrote(
            *old(writer),
            put_objects(old(writer).bits(), game.packet, ticks_view(packets@), known_packet),
        ),
{
    let ghost pre = *writer;
    let ghost ticks = ticks_view(packets@);
    let current_packets: &Vec<HQMObjectPacket> = &packets[0].packets;
    assert(ticks[0].packets == current_packets@);
    let diff: Option<u32> = if known_packet == u32::MAX {
        None
    } else {
        game.packet.checked_sub(known_packet)
    };
    let old_packets: Option<&Vec<HQMObjectPacket>> = match diff {
        Some(diff) => {
            let index: usize = diff as usize;
            if index < packets.len() && index < MAX_STEPS_BACK && index > 0 {
                assert(ticks[index as int].packets == packets@[index as int].packets@);
                Some(&packets[index].packets)
            } else {
                None
            }
        },
        None => None,
    };
    let ghost base = base_packets(game.packet, ticks, known_packet);
    assert(match old_packets {
        Some(v) => base == Some(v@) && v@.len() >= OBJECT_SLOTS,
        None => base is None,
    });
    let ghost head = put_u32(put_u32(pre.bits(), game.packet), known_packet);
    proof {
        lemma_put_slots_len(head, current_packets@, base, 0, OBJECT_SLOTS as nat);
    }
    writer.write_u32_aligned(game.packet);
    writer.write_u32_aligned(known_packet);

    let mut i: usize = 0;
    while i < OBJECT_SLOTS
        invariant
            i <= OBJECT_SLOTS,
            pre.wf(),
            current_packets@.len() >= OBJECT_SLOTS,
            match old_packets {
                Some(v) => base == Some(v@) && v@.len() >= OBJECT_SLOTS,
                None => base is None,
            },
            put_slots(head, current_packets@, base, OBJECT_SLOTS as nat).len() <= pre.capacity(),
            writer.wrote(pre, put_slots(head, current_packets@, base, i as nat)),
        decreases OBJECT_SLOTS - i,
    {
        let ghost mid = *writer;
        let old_packet: Option<HQMObjectPacket> = match old_packets {
            Some(v) => Some(v[i]),
            None => None,
        };
        proof {
            lemma_put_slots_len(head, current_packets@, base, (i + 1) as nat, OBJECT_SLOTS as nat);
        }
        match &current_packets[i] {
            HQMObjectPacket::Puck(puck) => {
                let old_puck: Option<HQMPuckPacket> = match old_packet {
                    Some(HQMObjectPacket::Puck(old_puck)) => Some(old_puck),
                    _ => None,
                };
                write_puck(writer, puck, old_puck);
            },
            HQMObjectPacket::Skater(skater) => {
                let old_skater: Option<HQMSkaterPacket> = match old_packet {
                    Some(HQMObjectPacket::Skater(old_skater)) => Some(old_skater),
                    _ => None,
                };
                write_skater(writer, skater, old_skater);
            },
            HQMObjectPacket::Empty => {
                writer.write_bits(1, 0);
            },
        }
        proof {
            assert(writer.bits() =~= put_slot(mid.bits(), current_packets@[i as int], old_packet));
            lemma_put_slot_len(mid.bits(), current_packets@[i as int], old_packet);
        }
        i = i + 1;
    }
}

/// The object slots as they are sent to clients.
pub fn get_packets(objects: &Vec<HQMGameObject>) -> (packets: Vec<HQMObjectPacket>)
    requires
        objects@.len() >= OBJECT_SLOTS,
    ensures
        packets@ =~= object_packets(objects@),
{
    let mut packets: Vec<HQMObjectPacket> = Vec::with_capacity(OBJECT_SLOTS);
    for i in 0..OBJECT_SLOTS
        invariant
            objects@.len() >= OBJECT_SLOTS,
            packets@ =~= Seq::new(i as nat, |j: int| objects@[j].packet()),
    {
        let packet = match &objects[i] {
            HQMGameObject::Puck(puck) => HQMObjectPacket::Puck(puck.get_packet()),
            HQMGameObject::Player(player) => HQMObjectPacket::Skater(player.get_packet()),
            HQMGameObject::Empty => HQMObjectPacket::Empty,
        };
        packets.push(packet);
    }
    packets
}

/// `s` followed by some messages.
pub open spec fn put_messages(s: Seq<bool>, messages: Seq<MessageView>) -> Seq<bool>
    decreases messages.len(),
{
    if messages.len() == 0 {
        s
    } else {
        put_message(put_messages(s, messages.drop_last()), messages.last())
    }
}

/// A message takes between 18 and 459 bits.
pub proof fn lemma_put_message_len(s: Seq<bool>, message: MessageView)
    ensures
        s.len() + 18 <= put_message(s, message).len() <= s.len() + 459,
{
}

/// The bits that some more messages take.
pub proof fn lemma_put_messages_len(s: Seq<bool>, messages: Seq<MessageView>, m: nat, n: nat)
    requires
        m <= n <= messages.len(),
    ensures
        put_messages(s, messages.take(m as int)).len() + 18 * (n - m) <= put_messages(
            s,
            messages.take(n as int),
        ).len() <= put_messages(s, messages.take(m as int)).len() + 459 * (n - m),
    decreases n,
{
    if m < n {
        let t = messages.take(n as int);
        assert(t.drop_last() =~= messages.take(n - 1));
        lemma_put_messages_len(s, messages, m, (n - 1) as nat);
        lemma_put_message_len(put_messages(s, t.drop_last()), t.last());
    }
}

/// Writes the messages from index `from` up to index `to`.
pub(crate) fn write_messages(
    writer: &mut HQMMessageWriter,
    messages: &Vec<Rc<HQMMessage>>,
    from: usize,
    to: usize,
)
    requires
        old(writer).wf(),
        from <= to <= messages@.len(),
        put_messages(
            old(writer).bits(),
            messages_view(messages@).subrange(from as int, to as int),
        ).len() <= old(writer).capacity(),
    ensures
        final(writer).wrote(
            *old(writer),
            put_messages(
                old(writer).bits(),
                messages_view(messages@).subrange(from as int, to as int),
            ),
        ),
{
    let ghost pre = *writer;
    let ghost ms = messages_view(messages@).subrange(from as int, to as int);
    let mut i: usize = from;
    assert(ms.take(0) =~= Seq::<MessageView>::empty());
    while i < to
        invariant
            from <= i <= to <= messages@.len(),
            pre.wf(),
            ms == messages_view(messages@).subrange(from as int, to as int),
            put_messages(pre.bits(), ms).len() <= pre.capacity(),
            writer.wrote(pre, put_messages(pre.bits(), ms.take(i - from))),
        decreases to - i,
    {
        let ghost mid = *writer;
        proof {
            let t = ms.take(i - from + 1);
            assert(t.drop_last() =~= ms.take(i - from));
            assert(t.last() == (*messages@[i as int])@);
            assert(ms.take(ms.len() as int) =~= ms);
            lemma_put_messages_len(pre.bits(), ms, (i - from + 1) as nat, ms.len());
            lemma_put_message_len(mid.bits(), t.last());
        }
        write_message(writer, &messages[i]);
        i = i + 1;
    }
    assert(ms.take(to - from) =~= ms);
}

} // verus!
