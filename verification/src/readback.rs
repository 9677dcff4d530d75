//! How a client reads what the server writes, and that it reads what was
//! written.
use crate::bits::{
    align, align_pos, lemma_low_bits_value, low_bits, pack, pad_bytes, put_bits, put_byte,
    put_bytes, put_u32, stream_byte, stream_value,
};
use crate::hqm_game::{
    ticks_wf, GameView, HQMObjectPacket, HQMPuckPacket, HQMSkaterPacket, MessageView, TickView, OBJECT_SLOTS,
};
use crate::hqm_parse::{pos_form, put_pos};
use crate::laws::{
    decoded_pos, law_bits_read_back, law_bytes_read_back, law_coordinate_read_back,
    law_written_bits_are_read, pos_width,
};
use crate::protocol::{
    base_packets, chat_bytes, index_num, name_bytes, old_of, put_message, put_messages,
    put_objects, put_puck, put_skater, put_slot, put_slots, seven_bits, NAME_BYTES,
};
use crate::players::{HQMClientVersion, PlayerView};
use crate::session::{bytes_at, parsed_chat, parsed_input, parsed_update, update_end, word_at, UpdateView};
use crate::updates::{
    game_header, info_bits, pending_messages, put_header, put_status, replay_bits, replay_head,
    rules_num, rules_state_of, update_bits, update_head, GAME_VERSION, SERVER_NAME_BYTES,
};
use vstd::arithmetic::div_mod::lemma_small_mod;
use vstd::arithmetic::power2::{lemma2_to64, pow2};
use vstd::prelude::*;
use vstd::utf8::encode_utf8;

verus! {

/// `t` starts with `s`.
pub open spec fn starts_with(t: Seq<bool>, s: Seq<bool>) -> bool {
    s.len() <= t.len() && t.take(s.len() as int) == s
}

proof fn lemma_starts_with_trans(t: Seq<bool>, m: Seq<bool>, s: Seq<bool>)
    requires
        starts_with(t, m),
        starts_with(m, s),
    ensures
        starts_with(t, s),
{
    assert(t.take(s.len() as int) =~= m.take(s.len() as int));
}

proof fn lemma_starts_with_sum(s: Seq<bool>, rest: Seq<bool>)
    ensures
        starts_with(s + rest, s),
{
    assert((s + rest).take(s.len() as int) =~= s);
}

/// Writing a coordinate leaves what stands before it alone.
proof fn lemma_put_pos_extends(s: Seq<bool>, n: nat, v: u32, old_v: Option<u32>)
    ensures
        starts_with(put_pos(s, n, v, old_v), s),
{
    reveal(put_pos);
    assert(put_pos(s, n, v, old_v).take(s.len() as int) =~= s);
}

/// The coordinate of `n` bits at bit position `p`, for a client that knows its
/// old value or does not, and the position behind it.
pub open spec fn read_pos(bytes: Seq<u8>, p: nat, n: nat, old_v: Option<u32>) -> (u32, nat) {
    let tag = stream_value(bytes, p, 2);
    let width = pos_width(tag, n);
    let field = stream_value(bytes, p + 2, width);
    (
        decoded_pos(
            tag,
            field,
            match old_v {
                Some(o) => o as int,
                None => 0,
            },
        ) as u32,
        p + 2 + width,
    )
}

proof fn lemma_read_pos(t: Seq<bool>, s: Seq<bool>, n: nat, v: u32, old_v: Option<u32>)
    requires
        starts_with(t, put_pos(s, n, v, old_v)),
        v < pow2(n),
    ensures
        read_pos(pack(t), s.len(), n, old_v) == (v, put_pos(s, n, v, old_v).len()),
{
    let u = put_pos(s, n, v, old_v);
    let rest = t.skip(u.len() as int);
    assert(u + rest =~= t);
    law_coordinate_read_back(s, n, v, old_v, rest);
    reveal(put_pos);
    let (tag, width, field) = pos_form(n, v, old_v);
    law_bits_read_back(s, 2, tag, low_bits(field, width) + rest);
    assert(put_bits(s, 2, tag) + (low_bits(field, width) + rest) =~= t);
    lemma2_to64();
    lemma_small_mod(tag, 4);
}

/// The puck at bit position `p`, behind the bits that say what it is, for a
/// client that knows an earlier state of it or does not.
pub open spec fn read_puck(bytes: Seq<u8>, p: nat, old_p: Option<HQMPuckPacket>) -> (
    HQMPuckPacket,
    nat,
) {
    let x = read_pos(bytes, p, 17, old_of(old_p, |o: HQMPuckPacket| o.pos.0));
    let y = read_pos(bytes, x.1, 17, old_of(old_p, |o: HQMPuckPacket| o.pos.1));
    let z = read_pos(bytes, y.1, 17, old_of(old_p, |o: HQMPuckPacket| o.pos.2));
    let r = read_pos(bytes, z.1, 31, old_of(old_p, |o: HQMPuckPacket| o.rot.0));
    let q = read_pos(bytes, r.1, 31, old_of(old_p, |o: HQMPuckPacket| o.rot.1));
    (HQMPuckPacket { pos: (x.0, y.0, z.0), rot: (r.0, q.0) }, q.1)
}

/// The skater at bit position `p`, behind the bits that say what it is, for a
/// client that knows an earlier state of it or does not.
pub open spec fn read_skater(bytes: Seq<u8>, p: nat, old_p: Option<HQMSkaterPacket>) -> (
    HQMSkaterPacket,
    nat,
) {
    let x = read_pos(bytes, p, 17, old_of(old_p, |o: HQMSkaterPacket| o.pos.0));
    let y = read_pos(bytes, x.1, 17, old_of(old_p, |o: HQMSkaterPacket| o.pos.1));
    let z = read_pos(bytes, y.1, 17, old_of(old_p, |o: HQMSkaterPacket| o.pos.2));
    let r = read_pos(bytes, z.1, 31, old_of(old_p, |o: HQMSkaterPacket| o.rot.0));
    let q = read_pos(bytes, r.1, 31, old_of(old_p, |o: HQMSkaterPacket| o.rot.1));
    let sx = read_pos(bytes, q.1, 13, old_of(old_p, |o: HQMSkaterPacket| o.stick_pos.0));
    let sy = read_pos(bytes, sx.1, 13, old_of(old_p, |o: HQMSkaterPacket| o.stick_pos.1));
    let sz = read_pos(bytes, sy.1, 13, old_of(old_p, |o: HQMSkaterPacket| o.stick_pos.2));
    let sr = read_pos(bytes, sz.1, 25, old_of(old_p, |o: HQMSkaterPacket| o.stick_rot.0));
    let sq = read_pos(bytes, sr.1, 25, old_of(old_p, |o: HQMSkaterPacket| o.stick_rot.1));
    let h = read_pos(bytes, sq.1, 16, old_of(old_p, |o: HQMSkaterPacket| o.head_rot));
    let b = read_pos(bytes, h.1, 16, old_of(old_p, |o: HQMSkaterPacket| o.body_rot));
    (
        HQMSkaterPacket {
            pos: (x.0, y.0, z.0),
            rot: (r.0, q.0),
            stick_pos: (sx.0, sy.0, sz.0),
            stick_rot: (sr.0, sq.0),
            head_rot: h.0,
            body_rot: b.0,
        },
        b.1,
    )
}

/// The coordinates of a puck fit in the bits that they are sent in.
pub open spec fn puck_fits(p: HQMPuckPacket) -> bool {
    &&& p.pos.0 < pow2(17) && p.pos.1 < pow2(17) && p.pos.2 < pow2(17)
    &&& p.rot.0 < pow2(31) && p.rot.1 < pow2(31)
}

/// The coordinates of a skater fit in the bits that they are sent in.
pub open spec fn skater_fits(p: HQMSkaterPacket) -> bool {
    &&& p.pos.0 < pow2(17) && p.pos.1 < pow2(17) && p.pos.2 < pow2(17)
    &&& p.rot.0 < pow2(31) && p.rot.1 < pow2(31)
    &&& p.stick_pos.0 < pow2(13) && p.stick_pos.1 < pow2(13) && p.stick_pos.2 < pow2(13)
    &&& p.stick_rot.0 < pow2(25) && p.stick_rot.1 < pow2(25)
    &&& p.head_rot < pow2(16) && p.body_rot < pow2(16)
}

proof fn lemma_read_puck(t: Seq<bool>, s: Seq<bool>, p: HQMPuckPacket, old_p: Option<HQMPuckPacket>)
    requires
        starts_with(t, put_puck(s, p, old_p)),
        puck_fits(p),
    ensures
        read_puck(pack(t), s.len() + 3, old_p) == (p, put_puck(s, p, old_p).len()),
        starts_with(put_puck(s, p, old_p), put_bits(put_bits(s, 1, 1), 2, 1)),
{
    let o0 = old_of(old_p, |o: HQMPuckPacket| o.pos.0);
    let o1 = old_of(old_p, |o: HQMPuckPacket| o.pos.1);
    let o2 = old_of(old_p, |o: HQMPuckPacket| o.pos.2);
    let o3 = old_of(old_p, |o: HQMPuckPacket| o.rot.0);
    let o4 = old_of(old_p, |o: HQMPuckPacket| o.rot.1);
    let s0 = put_bits(put_bits(s, 1, 1), 2, 1);
    let s1 = put_pos(s0, 17, p.pos.0, o0);
    let s2 = put_pos(s1, 17, p.pos.1, o1);
    let s3 = put_pos(s2, 17, p.pos.2, o2);
    let s4 = put_pos(s3, 31, p.rot.0, o3);
    let s5 = put_pos(s4, 31, p.rot.1, o4);
    assert(s5 == put_puck(s, p, old_p));
    lemma_read_pos(t, s4, 31, p.rot.1, o4);
    lemma_put_pos_extends(s4, 31, p.rot.1, o4);
    lemma_starts_with_trans(t, s5, s4);
    lemma_read_pos(t, s3, 31, p.rot.0, o3);
    lemma_put_pos_extends(s3, 31, p.rot.0, o3);
    lemma_starts_with_trans(t, s4, s3);
    lemma_read_pos(t, s2, 17, p.pos.2, o2);
    lemma_put_pos_extends(s2, 17, p.pos.2, o2);
    lemma_starts_with_trans(t, s3, s2);
    lemma_read_pos(t, s1, 17, p.pos.1, o1);
    lemma_put_pos_extends(s1, 17, p.pos.1, o1);
    lemma_starts_with_trans(t, s2, s1);
    lemma_read_pos(t, s0, 17, p.pos.0, o0);
    lemma_put_pos_extends(s0, 17, p.pos.0, o0);
    lemma_starts_with_trans(s5, s4, s3);
    lemma_starts_with_trans(s5, s3, s2);
    lemma_starts_with_trans(s5, s2, s1);
    lemma_starts_with_trans(s5, s1, s0);
}

proof fn lemma_read_skater(
    t: Seq<bool>,
    s: Seq<bool>,
    p: HQMSkaterPacket,
    old_p: Option<HQMSkaterPacket>,
)
    requires
        starts_with(t, put_skater(s, p, old_p)),
        skater_fits(p),
    ensures
        read_skater(pack(t), s.len() + 3, old_p) == (p, put_skater(s, p, old_p).len()),
        starts_with(put_skater(s, p, old_p), put_bits(put_bits(s, 1, 1), 2, 0)),
{
    let o0 = old_of(old_p, |o: HQMSkaterPacket| o.pos.0);
    let o1 = old_of(old_p, |o: HQMSkaterPacket| o.pos.1);
    let o2 = old_of(old_p, |o: HQMSkaterPacket| o.pos.2);
    let o3 = old_of(old_p, |o: HQMSkaterPacket| o.rot.0);
    let o4 = old_of(old_p, |o: HQMSkaterPacket| o.rot.1);
    let o5 = old_of(old_p, |o: HQMSkaterPacket| o.stick_pos.0);
    let o6 = old_of(old_p, |o: HQMSkaterPacket| o.stick_pos.1);
    let o7 = old_of(old_p, |o: HQMSkaterPacket| o.stick_pos.2);
    let o8 = old_of(old_p, |o: HQMSkaterPacket| o.stick_rot.0);
    let o9 = old_of(old_p, |o: HQMSkaterPacket| o.stick_rot.1);
    let o10 = old_of(old_p, |o: HQMSkaterPacket| o.head_rot);
    let o11 = old_of(old_p, |o: HQMSkaterPacket| o.body_rot);
    let s0 = put_bits(put_bits(s, 1, 1), 2, 0);
    let s1 = put_pos(s0, 17, p.pos.0, o0);
    let s2 = put_pos(s1, 17, p.pos.1, o1);
    let s3 = put_pos(s2, 17, p.pos.2, o2);
    let s4 = put_pos(s3, 31, p.rot.0, o3);
    let s5 = put_pos(s4, 31, p.rot.1, o4);
    let s6 = put_pos(s5, 13, p.stick_pos.0, o5);
    let s7 = put_pos(s6, 13, p.stick_pos.1, o6);
    let s8 = put_pos(s7, 13, p.stick_pos.2, o7);
    let s9 = put_pos(s8, 25, p.stick_rot.0, o8);
    let s10 = put_pos(s9, 25, p.stick_rot.1, o9);
    let s11 = put_pos(s10, 16, p.head_rot, o10);
    let s12 = put_pos(s11, 16, p.body_rot, o11);
    assert(s12 == put_skater(s, p, old_p));
    lemma_read_pos(t, s11, 16, p.body_rot, o11);
    lemma_put_pos_extends(s11, 16, p.body_rot, o11);
    lemma_starts_with_trans(t, s12, s11);
    lemma_read_pos(t, s10, 16, p.head_rot, o10);
    lemma_put_pos_extends(s10, 16, p.head_rot, o10);
    lemma_starts_with_trans(t, s11, s10);
    lemma_read_pos(t, s9, 25, p.stick_rot.1, o9);
    lemma_put_pos_extends(s9, 25, p.stick_rot.1, o9);
    lemma_starts_with_trans(t, s10, s9);
    lemma_read_pos(t, s8, 25, p.stick_rot.0, o8);
    lemma_put_pos_extends(s8, 25, p.stick_rot.0, o8);
    lemma_starts_with_trans(t, s9, s8);
    lemma_read_pos(t, s7, 13, p.stick_pos.2, o7);
    lemma_put_pos_extends(s7, 13, p.stick_pos.2, o7);
    lemma_starts_with_trans(t, s8, s7);
    lemma_read_pos(t, s6, 13, p.stick_pos.1, o6);
    lemma_put_pos_extends(s6, 13, p.stick_pos.1, o6);
    lemma_starts_with_trans(t, s7, s6);
    lemma_read_pos(t, s5, 13, p.stick_pos.0, o5);
    lemma_put_pos_extends(s5, 13, p.stick_pos.0, o5);
    lemma_starts_with_trans(t, s6, s5);
    lemma_read_pos(t, s4, 31, p.rot.1, o4);
    lemma_put_pos_extends(s4, 31, p.rot.1, o4);
    lemma_starts_with_trans(t, s5, s4);
    lemma_read_pos(t, s3, 31, p.rot.0, o3);
    lemma_put_pos_extends(s3, 31, p.rot.0, o3);
    lemma_starts_with_trans(t, s4, s3);
    lemma_read_pos(t, s2, 17, p.pos.2, o2);
    lemma_put_pos_extends(s2, 17, p.pos.2, o2);
    lemma_starts_with_trans(t, s3, s2);
    lemma_read_pos(t, s1, 17, p.pos.1, o1);
    lemma_put_pos_extends(s1, 17, p.pos.1, o1);
    lemma_starts_with_trans(t, s2, s1);
    lemma_read_pos(t, s0, 17, p.pos.0, o0);
    lemma_put_pos_extends(s0, 17, p.pos.0, o0);
    lemma_starts_with_trans(s12, s11, s10);
    lemma_starts_with_trans(s12, s10, s9);
    lemma_starts_with_trans(s12, s9, s8);
    lemma_starts_with_trans(s12, s8, s7);
    lemma_starts_with_trans(s12, s7, s6);
    lemma_starts_with_trans(s12, s6, s5);
    lemma_starts_with_trans(s12, s5, s4);
    lemma_starts_with_trans(s12, s4, s3);
    lemma_starts_with_trans(s12, s3, s2);
    lemma_starts_with_trans(s12, s2, s1);
    lemma_starts_with_trans(s12, s1, s0);
}

/// What stands in the object slot at bit position `p`, for a client that knows
/// what an earlier step had in it or does not, and the position behind it.
pub open spec fn read_slot(bytes: Seq<u8>, p: nat, old_packet: Option<HQMObjectPacket>) -> (
    HQMObjectPacket,
    nat,
) {
    if stream_value(bytes, p, 1) == 0 {
        (HQMObjectPacket::Empty, p + 1)
    } else if stream_value(bytes, p + 1, 2) == 1 {
        let (puck, q) = read_puck(
            bytes,
            p + 3,
            match old_packet {
                Some(HQMObjectPacket::Puck(o)) => Some(o),
                _ => None,
            },
        );
        (HQMObjectPacket::Puck(puck), q)
    } else {
        let (skater, q) = read_skater(
            bytes,
            p + 3,
            match old_packet {
                Some(HQMObjectPacket::Skater(o)) => Some(o),
                _ => None,
            },
        );
        (HQMObjectPacket::Skater(skater), q)
    }
}

/// The coordinates of an object fit in the bits that they are sent in.
pub open spec fn packet_fits(packet: HQMObjectPacket) -> bool {
    match packet {
        HQMObjectPacket::Puck(puck) => puck_fits(puck),
        HQMObjectPacket::Skater(skater) => skater_fits(skater),
        HQMObjectPacket::Empty => true,
    }
}

/// Reads a few bits of what was written.
proof fn lemma_read_bits(t: Seq<bool>, s: Seq<bool>, n: nat, v: nat)
    requires
        starts_with(t, put_bits(s, n, v)),
    ensures
        stream_value(pack(t), s.len(), n) == v % pow2(n),
{
    let u = put_bits(s, n, v);
    let rest = t.skip(u.len() as int);
    assert(u + rest =~= t);
    law_bits_read_back(s, n, v, rest);
}

proof fn lemma_put_bits_extends(s: Seq<bool>, n: nat, v: nat)
    ensures
        starts_with(put_bits(s, n, v), s),
{
    lemma_starts_with_sum(s, low_bits(v, n));
}

/// An object slot is read as it was written.
proof fn lemma_read_slot(
    t: Seq<bool>,
    s: Seq<bool>,
    current: HQMObjectPacket,
    old_packet: Option<HQMObjectPacket>,
)
    requires
        starts_with(t, put_slot(s, current, old_packet)),
        packet_fits(current),
    ensures
        read_slot(pack(t), s.len(), old_packet) == (current, put_slot(
            s,
            current,
            old_packet,
        ).len()),
        starts_with(put_slot(s, current, old_packet), s),
{
    lemma2_to64();
    let u = put_slot(s, current, old_packet);
    match current {
        HQMObjectPacket::Puck(puck) => {
            let o = match old_packet {
                Some(HQMObjectPacket::Puck(o)) => Some(o),
                _ => None,
            };
            lemma_read_puck(t, s, puck, o);
            lemma_slot_head(t, u, s, 1);
        },
        HQMObjectPacket::Skater(skater) => {
            let o = match old_packet {
                Some(HQMObjectPacket::Skater(o)) => Some(o),
                _ => None,
            };
            lemma_read_skater(t, s, skater, o);
            lemma_slot_head(t, u, s, 0);
        },
        HQMObjectPacket::Empty => {
            lemma_read_bits(t, s, 1, 0);
            lemma_put_bits_extends(s, 1, 0);
        },
    }
}

/// The bits that say what stands in an object slot.
proof fn lemma_slot_head(t: Seq<bool>, u: Seq<bool>, s: Seq<bool>, kind: nat)
    requires
        kind < 2,
        starts_with(t, u),
        starts_with(u, put_bits(put_bits(s, 1, 1), 2, kind)),
    ensures
        stream_value(pack(t), s.len(), 1) == 1,
        stream_value(pack(t), s.len() + 1, 2) == kind,
        starts_with(u, s),
{
    lemma2_to64();
    let a = put_bits(s, 1, 1);
    let b = put_bits(a, 2, kind);
    lemma_put_bits_extends(s, 1, 1);
    lemma_put_bits_extends(a, 2, kind);
    lemma_starts_with_trans(t, u, b);
    lemma_starts_with_trans(t, b, a);
    lemma_read_bits(t, s, 1, 1);
    lemma_read_bits(t, a, 2, kind);
    lemma_small_mod(1, 2);
    lemma_small_mod(kind, 4);
    lemma_starts_with_trans(u, b, a);
    lemma_starts_with_trans(u, a, s);
}

/// The first `n` object slots from bit position `p` on, and the position behind them.
pub open spec fn read_slots(
    bytes: Seq<u8>,
    p: nat,
    base: Option<Seq<HQMObjectPacket>>,
    n: nat,
) -> (Seq<HQMObjectPacket>, nat)
    decreases n,
{
    if n == 0 {
        (Seq::empty(), p)
    } else {
        let (before, q) = read_slots(bytes, p, base, (n - 1) as nat);
        let (packet, r) = read_slot(
            bytes,
            q,
            match base {
                Some(b) => Some(b[n - 1]),
                None => None,
            },
        );
        (before.push(packet), r)
    }
}

proof fn lemma_read_slots(
    t: Seq<bool>,
    s: Seq<bool>,
    current: Seq<HQMObjectPacket>,
    base: Option<Seq<HQMObjectPacket>>,
    n: nat,
)
    requires
        n <= current.len(),
        starts_with(t, put_slots(s, current, base, n)),
        forall|i: int| 0 <= i < n ==> packet_fits(#[trigger] current[i]),
    ensures
        read_slots(pack(t), s.len(), base, n) == (current.take(n as int), put_slots(
            s,
            current,
            base,
            n,
        ).len()),
        starts_with(put_slots(s, current, base, n), s),
    decreases n,
{
    if n == 0 {
        assert(current.take(0) =~= Seq::empty());
        assert(s.take(s.len() as int) =~= s);
    } else {
        let m = (n - 1) as nat;
        let before = put_slots(s, current, base, m);
        let old_packet = match base {
            Some(b) => Some(b[n - 1]),
            None => None,
        };
        let after = put_slots(s, current, base, n);
        lemma_read_slot(t, before, current[n - 1], old_packet);
        lemma_starts_with_trans(t, after, before);
        lemma_read_slots(t, s, current, base, m);
        lemma_starts_with_trans(after, before, s);
        assert(current.take(m as int).push(current[n - 1]) =~= current.take(n as int));
    }
}

/// A client that knows what the server knows of the step that the objects are
/// coded against reads the objects of the latest step as the server has them,
/// as long as their coordinates fit in the bits that they are sent in. It also
/// reads the number of the step, and which step it was coded against.
pub proof fn law_objects_read_back(
    s: Seq<bool>,
    packet: u32,
    ticks: Seq<TickView>,
    known_packet: u32,
    rest: Seq<bool>,
)
    requires
        ticks.len() > 0,
        ticks[0].packets.len() >= OBJECT_SLOTS,
        forall|i: int| 0 <= i < OBJECT_SLOTS ==> packet_fits(#[trigger] ticks[0].packets[i]),
    ensures
        ({
            let u = put_objects(s, packet, ticks, known_packet);
            let bytes = pack(u + rest);
            let p = align_pos(s.len());
            &&& stream_value(bytes, p, 32) == packet
            &&& stream_value(bytes, p + 32, 32) == known_packet
            &&& read_slots(
                bytes,
                p + 64,
                base_packets(packet, ticks, known_packet),
                OBJECT_SLOTS as nat,
            ) == (ticks[0].packets.take(OBJECT_SLOTS as int), u.len())
            &&& starts_with(u, s)
        }),
{
    let u = put_objects(s, packet, ticks, known_packet);
    let t = u + rest;
    let a = put_u32(s, packet);
    let b = put_u32(a, known_packet);
    lemma_starts_with_sum(u, rest);
    lemma_read_slots(
        t,
        b,
        ticks[0].packets,
        base_packets(packet, ticks, known_packet),
        OBJECT_SLOTS as nat,
    );
    lemma_starts_with_trans(t, u, b);
    lemma_read_u32(t, a, known_packet);
    lemma_starts_with_trans(t, b, a);
    lemma_read_u32(t, s, packet);
    lemma_starts_with_trans(u, b, a);
    lemma_starts_with_trans(u, a, s);
}

/// A 32-bit value is read as it was written, and leaves what stands before it alone.
proof fn lemma_read_u32(t: Seq<bool>, s: Seq<bool>, v: u32)
    requires
        starts_with(t, put_u32(s, v)),
    ensures
        stream_value(pack(t), align_pos(s.len()), 32) == v,
        starts_with(put_u32(s, v), s),
        put_u32(s, v).len() == align_pos(s.len()) + 32,
{
    lemma_read_bits(t, align(s), 32, v as nat);
    lemma2_to64();
    lemma_small_mod(v as nat, pow2(32));
    assert(put_u32(s, v).take(s.len() as int) =~= s);
}

/// A message as a client sees it. Indices and team numbers have all bits set
/// where there is none, and of each byte of a text seven bits are left.
#[allow(inconsistent_fields)]
pub enum WireMessage {
    PlayerUpdate { player_index: nat, in_server: bool, team: nat, object: nat, name: Seq<u8> },
    Goal { team: nat, goal_player_index: nat, assist_player_index: nat },
    Chat { player_index: nat, text: Seq<u8> },
}

/// The seven low bits of each byte of a text.
pub open spec fn cut_to_seven(text: Seq<u8>) -> Seq<u8> {
    text.map_values(|b: u8| (b % 128) as u8)
}

/// What a client sees of a message.
pub open spec fn wire_message(message: MessageView) -> WireMessage {
    match message {
        MessageView::PlayerUpdate { player_name, object, player_index, in_server } => {
            let (object_index, team): (u32, u32) = match object {
                Some((i, team)) => (i as u32, team.num()),
                None => (u32::MAX, u32::MAX),
            };
            WireMessage::PlayerUpdate {
                player_index: (player_index as u32 % 64) as nat,
                in_server,
                team: (team % 4) as nat,
                object: (object_index % 64) as nat,
                name: cut_to_seven(name_bytes(player_name)),
            }
        },
        MessageView::Goal { team, goal_player_index, assist_player_index } => WireMessage::Goal {
            team: team.num() as nat,
            goal_player_index: (index_num(goal_player_index) % 64) as nat,
            assist_player_index: (index_num(assist_player_index) % 64) as nat,
        },
        MessageView::Chat { player_index, message } => WireMessage::Chat {
            player_index: (index_num(player_index) % 64) as nat,
            text: cut_to_seven(chat_bytes(message)),
        },
    }
}

/// `n` bytes of seven bits each from bit position `p` on.
pub open spec fn read_text(bytes: Seq<u8>, p: nat, n: nat) -> Seq<u8> {
    Seq::new(n, |i: int| stream_value(bytes, (p + 7 * i) as nat, 7) as u8)
}

/// The message at bit position `p`, and the position behind it.
pub open spec fn read_message(bytes: Seq<u8>, p: nat) -> (WireMessage, nat) {
    let kind = stream_value(bytes, p, 6);
    if kind == 0 {
        (
            WireMessage::PlayerUpdate {
                player_index: stream_value(bytes, p + 6, 6),
                in_server: stream_value(bytes, p + 12, 1) == 1,
                team: stream_value(bytes, p + 13, 2),
                object: stream_value(bytes, p + 15, 6),
                name: read_text(bytes, p + 21, NAME_BYTES as nat),
            },
            p + 21 + 7 * NAME_BYTES as nat,
        )
    } else if kind == 1 {
        (
            WireMessage::Goal {
                team: stream_value(bytes, p + 6, 2),
                goal_player_index: stream_value(bytes, p + 8, 6),
                assist_player_index: stream_value(bytes, p + 14, 6),
            },
            p + 20,
        )
    } else {
        let n = stream_value(bytes, p + 12, 6);
        (
            WireMessage::Chat {
                player_index: stream_value(bytes, p + 6, 6),
                text: read_text(bytes, p + 18, n),
            },
            p + 18 + 7 * n,
        )
    }
}

/// A text is read as it was written, but for the eighth bit of each byte.
proof fn lemma_read_text(t: Seq<bool>, s: Seq<bool>, text: Seq<u8>)
    requires
        starts_with(t, s + seven_bits(text)),
    ensures
        read_text(pack(t), s.len(), text.len()) == cut_to_seven(text),
{
    let u = s + seven_bits(text);
    lemma2_to64();
    assert forall|i: int| 0 <= i < text.len() implies read_text(pack(t), s.len(), text.len())[i]
        == cut_to_seven(text)[i] by {
        let p = (s.len() + 7 * i) as nat;
        law_written_bits_are_read(t, p, 7);
        assert(t.subrange(p as int, (p + 7) as int) =~= low_bits(text[i] as nat, 7)) by {
            assert forall|j: int| 0 <= j < 7 implies t[p + j] == low_bits(text[i] as nat, 7)[j] by {
                assert(t[p + j] == t.take(u.len() as int)[p + j]);
                assert((7 * i + j) / 7 == i && (7 * i + j) % 7 == j);
            }
        }
        lemma_low_bits_value(text[i] as nat, 7);
    }
    assert(read_text(pack(t), s.len(), text.len()) =~= cut_to_seven(text));
}

/// A message is read as it was written.
proof fn lemma_read_message(t: Seq<bool>, s: Seq<bool>, message: MessageView)
    requires
        starts_with(t, put_message(s, message)),
    ensures
        read_message(pack(t), s.len()) == (wire_message(message), put_message(s, message).len()),
        starts_with(put_message(s, message), s),
{
    lemma2_to64();
    let u = put_message(s, message);
    match message {
        MessageView::Chat { player_index, message } => {
            let bytes = chat_bytes(message);
            let a = put_bits(s, 6, 2);
            let b = put_bits(a, 6, index_num(player_index) as nat);
            let c = put_bits(b, 6, bytes.len());
            lemma_starts_with_sum(c, seven_bits(bytes));
            lemma_read_text(t, c, bytes);
            lemma_starts_with_trans(t, u, c);
            lemma_three_fields(t, s, 6, 2, 6, index_num(player_index) as nat, 6, bytes.len());
            lemma_starts_with_trans(u, c, s);
            lemma_small_mod(2, 64);
            lemma_small_mod(bytes.len(), 64);
        },
        MessageView::Goal { team, goal_player_index, assist_player_index } => {
            let a = put_bits(s, 6, 1);
            let b = put_bits(a, 2, team.num() as nat);
            let c = put_bits(b, 6, index_num(goal_player_index) as nat);
            lemma_put_bits_extends(c, 6, index_num(assist_player_index) as nat);
            lemma_read_bits(t, c, 6, index_num(assist_player_index) as nat);
            lemma_starts_with_trans(t, u, c);
            lemma_three_fields(
                t,
                s,
                6,
                1,
                2,
                team.num() as nat,
                6,
                index_num(goal_player_index) as nat,
            );
            lemma_starts_with_trans(u, c, s);
            lemma_small_mod(1, 64);
            lemma_small_mod(team.num() as nat, 4);
        },
        MessageView::PlayerUpdate { player_name, object, player_index, in_server } => {
            let (object_index, team_num): (u32, u32) = match object {
                Some((i, team)) => (i as u32, team.num()),
                None => (u32::MAX, u32::MAX),
            };
            let flag = if in_server {
                1nat
            } else {
                0
            };
            let a = put_bits(s, 6, 0);
            let b = put_bits(a, 6, player_index as u32 as nat);
            let c = put_bits(b, 1, flag);
            let d = put_bits(c, 2, team_num as nat);
            let e = put_bits(d, 6, object_index as nat);
            let bytes = name_bytes(player_name);
            lemma_starts_with_sum(e, seven_bits(bytes));
            lemma_read_text(t, e, bytes);
            lemma_starts_with_trans(t, u, e);
            lemma_put_bits_extends(d, 6, object_index as nat);
            lemma_read_bits(t, d, 6, object_index as nat);
            lemma_starts_with_trans(t, e, d);
            lemma_put_bits_extends(c, 2, team_num as nat);
            lemma_read_bits(t, c, 2, team_num as nat);
            lemma_starts_with_trans(t, d, c);
            lemma_three_fields(t, s, 6, 0, 6, player_index as u32 as nat, 1, flag);
            lemma_starts_with_trans(u, e, d);
            lemma_starts_with_trans(u, d, c);
            lemma_starts_with_trans(u, c, s);
            lemma_small_mod(0, 64);
            lemma_small_mod(flag, 2);
        },
    }
}

/// Three fields in a row are read as they were written.
proof fn lemma_three_fields(
    t: Seq<bool>,
    s: Seq<bool>,
    n0: nat,
    v0: nat,
    n1: nat,
    v1: nat,
    n2: nat,
    v2: nat,
)
    requires
        starts_with(t, put_bits(put_bits(put_bits(s, n0, v0), n1, v1), n2, v2)),
    ensures
        stream_value(pack(t), s.len(), n0) == v0 % pow2(n0),
        stream_value(pack(t), s.len() + n0, n1) == v1 % pow2(n1),
        stream_value(pack(t), s.len() + n0 + n1, n2) == v2 % pow2(n2),
        starts_with(put_bits(put_bits(put_bits(s, n0, v0), n1, v1), n2, v2), s),
{
    let a = put_bits(s, n0, v0);
    let b = put_bits(a, n1, v1);
    let c = put_bits(b, n2, v2);
    lemma_put_bits_extends(s, n0, v0);
    lemma_put_bits_extends(a, n1, v1);
    lemma_put_bits_extends(b, n2, v2);
    lemma_read_bits(t, b, n2, v2);
    lemma_starts_with_trans(t, c, b);
    lemma_read_bits(t, a, n1, v1);
    lemma_starts_with_trans(t, b, a);
    lemma_read_bits(t, s, n0, v0);
    lemma_starts_with_trans(c, b, a);
    lemma_starts_with_trans(c, a, s);
}

/// `n` messages from bit position `p` on, and the position behind them.
pub open spec fn read_messages(bytes: Seq<u8>, p: nat, n: nat) -> (Seq<WireMessage>, nat)
    decreases n,
{
    if n == 0 {
        (Seq::empty(), p)
    } else {
        let (before, q) = read_messages(bytes, p, (n - 1) as nat);
        let (message, r) = read_message(bytes, q);
        (before.push(message), r)
    }
}

/// What a client sees of some messages.
pub open spec fn wire_messages(messages: Seq<MessageView>) -> Seq<WireMessage> {
    messages.map_values(|m: MessageView| wire_message(m))
}

/// A client reads messages as they were written, in the same order, whatever
/// stands before and behind them.
pub proof fn law_messages_read_back(s: Seq<bool>, messages: Seq<MessageView>, rest: Seq<bool>)
    ensures
        read_messages(pack(put_messages(s, messages) + rest), s.len(), messages.len()) == (
            wire_messages(messages),
            put_messages(s, messages).len(),
        ),
        starts_with(put_messages(s, messages), s),
    decreases messages.len(),
{
    let u = put_messages(s, messages);
    let t = u + rest;
    lemma_starts_with_sum(u, rest);
    if messages.len() == 0 {
        assert(wire_messages(messages) =~= Seq::empty());
        assert(s.take(s.len() as int) =~= s);
    } else {
        let init = messages.drop_last();
        let before = put_messages(s, init);
        lemma_read_message(t, before, messages.last());
        lemma_starts_with_trans(t, u, before);
        let tail = t.skip(before.len() as int);
        assert(before + tail =~= t);
        law_messages_read_back(s, init, tail);
        lemma_starts_with_trans(u, before, s);
        assert(wire_messages(init).push(wire_message(messages.last())) =~= wire_messages(
            messages,
        ));
    }
}

/// The score and the clock as a client sees them.
pub struct WireStatus {
    pub game_over: bool,
    pub red_score: nat,
    pub blue_score: nat,
    pub time: nat,
    pub time_break: nat,
    pub period: nat,
}

/// What a client sees of the score and the clock.
pub open spec fn wire_status(game: GameView) -> WireStatus {
    WireStatus {
        game_over: game.game_over,
        red_score: (game.red_score % 256) as nat,
        blue_score: (game.blue_score % 256) as nat,
        time: (game.time % 65536) as nat,
        time_break: if game.is_intermission_goal {
            (game.time_break % 65536) as nat
        } else {
            0
        },
        period: (game.period % 256) as nat,
    }
}

/// The score and the clock at bit position `p`.
pub open spec fn read_status(bytes: Seq<u8>, p: nat) -> WireStatus {
    WireStatus {
        game_over: stream_value(bytes, p, 1) == 1,
        red_score: stream_value(bytes, p + 1, 8),
        blue_score: stream_value(bytes, p + 9, 8),
        time: stream_value(bytes, p + 17, 16),
        time_break: stream_value(bytes, p + 33, 16),
        period: stream_value(bytes, p + 49, 8),
    }
}

proof fn lemma_read_status(t: Seq<bool>, s: Seq<bool>, game: GameView)
    requires
        starts_with(t, put_status(s, game)),
    ensures
        read_status(pack(t), s.len()) == wire_status(game),
        starts_with(put_status(s, game), s),
        put_status(s, game).len() == s.len() + 57,
{
    lemma2_to64();
    let over = if game.game_over {
        1nat
    } else {
        0
    };
    let pause = if game.is_intermission_goal {
        game.time_break as nat
    } else {
        0
    };
    let c = put_bits(
        put_bits(put_bits(s, 1, over), 8, game.red_score as nat),
        8,
        game.blue_score as nat,
    );
    let u = put_bits(put_bits(put_bits(c, 16, game.time as nat), 16, pause), 8, game.period as nat);
    assert(u == put_status(s, game));
    lemma_three_fields(t, c, 16, game.time as nat, 16, pause, 8, game.period as nat);
    lemma_starts_with_trans(t, u, c);
    lemma_three_fields(t, s, 1, over, 8, game.red_score as nat, 8, game.blue_score as nat);
    lemma_starts_with_trans(u, c, s);
    lemma_small_mod(over, 2);
    lemma_small_mod(0, 65536);
}

/// An update as a client sees it, up to the objects.
pub struct WireHead {
    pub game_id: nat,
    pub game_step: nat,
    pub status: WireStatus,
    pub view_player_index: nat,
    pub deltatime: Option<nat>,
    pub rules: Option<nat>,
}

/// What a client sees of an update, up to the objects.
pub open spec fn wire_head(game_id: u32, game: GameView, player: PlayerView) -> WireHead {
    WireHead {
        game_id: game_id as nat,
        game_step: game.game_step as nat,
        status: wire_status(game),
        view_player_index: (player.view_player_index as u32 % 256) as nat,
        deltatime: if player.client_version.pings() {
            Some(player.deltatime as nat)
        } else {
            None
        },
        rules: if player.client_version.shows_rules() {
            Some(rules_num(rules_state_of(game)) as nat)
        } else {
            None
        },
    }
}

/// An update that a client of some version gets, up to the objects. It starts at
/// bit position 40, behind the header and the command byte.
pub open spec fn read_head(bytes: Seq<u8>, version: HQMClientVersion) -> WireHead {
    WireHead {
        game_id: stream_value(bytes, 40, 32),
        game_step: stream_value(bytes, 72, 32),
        status: read_status(bytes, 104),
        view_player_index: stream_value(bytes, 161, 8),
        deltatime: if version.pings() {
            Some(stream_value(bytes, 176, 32))
        } else {
            None
        },
        rules: if version.shows_rules() {
            Some(stream_value(bytes, 208, 32))
        } else {
            None
        },
    }
}

/// The bit position behind the part of an update that comes before the objects.
pub open spec fn head_end(version: HQMClientVersion) -> nat {
    if version.shows_rules() {
        240
    } else if version.pings() {
        208
    } else {
        169
    }
}

proof fn lemma_read_head(t: Seq<bool>, game_id: u32, game: GameView, player: PlayerView)
    requires
        starts_with(t, update_head(game_id, game, player)),
    ensures
        read_head(pack(t), player.client_version) == wire_head(game_id, game, player),
        update_head(game_id, game, player).len() == head_end(player.client_version),
        stream_value(pack(t), 32, 8) == 5,
        forall|i: int| 0 <= i < 4 ==> #[trigger] stream_byte(pack(t), i) == game_header()[i],
{
    lemma2_to64();
    let h = put_header(Seq::empty(), 5);
    let a = put_u32(h, game_id);
    let b = put_u32(a, game.game_step);
    let c = put_status(b, game);
    let d = put_bits(c, 8, player.view_player_index as u32 as nat);
    let e = if player.client_version.pings() {
        put_u32(d, player.deltatime)
    } else {
        d
    };
    let u = update_head(game_id, game, player);
    if player.client_version.shows_rules() {
        lemma_read_u32(t, e, rules_num(rules_state_of(game)));
        lemma_starts_with_trans(t, u, e);
    }
    if player.client_version.pings() {
        lemma_read_u32(t, d, player.deltatime);
        lemma_starts_with_trans(t, e, d);
    }
    lemma_read_bits(t, c, 8, player.view_player_index as u32 as nat);
    lemma_put_bits_extends(c, 8, player.view_player_index as u32 as nat);
    lemma_starts_with_trans(t, d, c);
    lemma_read_status(t, b, game);
    lemma_starts_with_trans(t, c, b);
    lemma_read_u32(t, a, game.game_step);
    lemma_starts_with_trans(t, b, a);
    lemma_read_u32(t, h, game_id);
    lemma_starts_with_trans(t, a, h);
    lemma_read_header(t, 5);
}

proof fn lemma_read_header(t: Seq<bool>, command: u8)
    requires
        starts_with(t, put_header(Seq::empty(), command)),
    ensures
        put_header(Seq::empty(), command).len() == 40,
        stream_value(pack(t), 32, 8) == command,
        forall|i: int| 0 <= i < 4 ==> #[trigger] stream_byte(pack(t), i) == game_header()[i],
{
    lemma2_to64();
    let a = put_bytes(Seq::empty(), game_header());
    let h = put_header(Seq::empty(), command);
    lemma_read_bits(t, align(a), 8, command as nat);
    lemma_small_mod(command as nat, 256);
    assert(align(a) =~= a);
    lemma_put_bits_extends(a, 8, command as nat);
    lemma_starts_with_trans(t, h, a);
    let rest = t.skip(a.len() as int);
    assert(a + rest =~= t);
    assert forall|i: int| 0 <= i < 4 implies #[trigger] stream_byte(pack(t), i)
        == game_header()[i] by {
        law_bytes_read_back(Seq::empty(), game_header(), rest, i);
    }
}

/// A client that is in the game reads from an update what the server has: the
/// state of the game, the objects, and the next messages, in order. The objects
/// have to fit in the bits that they are sent in, and the client has to know
/// what the server knows of the step that they are coded against.
pub proof fn law_update_read_back(game_id: u32, game: GameView, player: PlayerView)
    requires
        player.game_id == game_id,
        ticks_wf(game.saved_ticks),
        game.saved_ticks.len() > 0,
        forall|i: int|
            0 <= i < OBJECT_SLOTS ==> packet_fits(#[trigger] game.saved_ticks[0].packets[i]),
    ensures
        ({
            let bytes = pack(update_bits(game_id, game, player));
            let p = align_pos(head_end(player.client_version));
            let base = base_packets(game.packet, game.saved_ticks, player.known_packet);
            let (objects, q) = read_slots(bytes, p + 64, base, OBJECT_SLOTS as nat);
            let pending = pending_messages(player);
            &&& forall|i: int| 0 <= i < 4 ==> #[trigger] stream_byte(bytes, i) == game_header()[i]
            &&& stream_value(bytes, 32, 8) == 5
            &&& read_head(bytes, player.client_version) == wire_head(game_id, game, player)
            &&& stream_value(bytes, p, 32) == game.packet
            &&& stream_value(bytes, p + 32, 32) == player.known_packet
            &&& objects == game.saved_ticks[0].packets.take(OBJECT_SLOTS as int)
            &&& stream_value(bytes, q, 4) == pending.len()
            &&& stream_value(bytes, q + 4, 16) == player.known_msgpos as u32 % 65536
            &&& read_messages(bytes, q + 20, pending.len()).0 == wire_messages(pending)
            &&& read_messages(bytes, q + 20, pending.len()).1 == update_bits(
                game_id,
                game,
                player,
            ).len()
        }),
{
    lemma2_to64();
    let t = update_bits(game_id, game, player);
    let a = update_head(game_id, game, player);
    let b = put_objects(a, game.packet, game.saved_ticks, player.known_packet);
    let pending = pending_messages(player);
    let c = put_bits(b, 4, pending.len());
    let d = put_bits(c, 16, player.known_msgpos as u32 as nat);
    assert(t == put_messages(d, pending));
    let none = Seq::<bool>::empty();
    assert(t + none =~= t);
    law_messages_read_back(d, pending, none);
    lemma_put_bits_extends(c, 16, player.known_msgpos as u32 as nat);
    lemma_read_bits(t, c, 16, player.known_msgpos as u32 as nat);
    lemma_starts_with_trans(t, d, c);
    lemma_put_bits_extends(b, 4, pending.len());
    lemma_read_bits(t, b, 4, pending.len());
    lemma_small_mod(pending.len(), 16);
    lemma_starts_with_trans(t, c, b);
    let rest = t.skip(b.len() as int);
    assert(b + rest =~= t);
    law_objects_read_back(a, game.packet, game.saved_ticks, player.known_packet, rest);
    lemma_starts_with_trans(t, b, a);
    lemma_read_head(t, game_id, game, player);
}

/// A client that does not know yet which game it is in reads its number.
pub proof fn law_game_id_read_back(game_id: u32, game: GameView, player: PlayerView)
    requires
        player.game_id != game_id,
    ensures
        ({
            let bytes = pack(update_bits(game_id, game, player));
            &&& forall|i: int| 0 <= i < 4 ==> #[trigger] stream_byte(bytes, i) == game_header()[i]
            &&& stream_value(bytes, 32, 8) == 6
            &&& stream_value(bytes, 40, 32) == game_id
            &&& bytes.len() == 9
        }),
{
    let h = put_header(Seq::empty(), 6);
    let t = put_u32(h, game_id);
    assert(t.take(t.len() as int) =~= t);
    lemma_read_u32(t, h, game_id);
    lemma_read_header(t, 6);
}

/// The words that an update from a client starts with.
pub open spec fn put_client_words(s: Seq<bool>, u: UpdateView) -> Seq<bool> {
    let s = put_u32(s, u.game_id);
    let s = put_u32(s, u.input.stick_angle);
    let s = put_u32(s, u.input.turn);
    let s = put_u32(s, u.input.unknown);
    let s = put_u32(s, u.input.fwbw);
    let s = put_u32(s, u.input.stick.0);
    let s = put_u32(s, u.input.stick.1);
    let s = put_u32(s, u.input.head_rot);
    let s = put_u32(s, u.input.body_rot);
    put_u32(s, u.input.keys)
}

/// The chat message of an update from a client.
pub open spec fn put_client_chat(s: Seq<bool>, chat: Option<(u8, Seq<u8>)>) -> Seq<bool> {
    match chat {
        Some((rep, message)) => put_bytes(
            put_bits(put_bits(put_bits(s, 1, 1), 3, rep as nat), 8, message.len()),
            message,
        ),
        None => put_bits(s, 1, 0),
    }
}

/// An update as a client writes it, behind what stands before it.
pub open spec fn put_client_update(s: Seq<bool>, u: UpdateView) -> Seq<bool> {
    let s = put_client_words(s, u);
    let s = match u.deltatime {
        Some(deltatime) => put_u32(s, deltatime),
        None => s,
    };
    let s = put_u32(s, u.known_packet);
    let s = put_bits(s, 16, u.known_msgpos as nat);
    put_client_chat(s, u.chat)
}

/// An update can be written: the client sends its time exactly if it measures
/// its ping, and the other fields fit in the bits that they are sent in.
pub open spec fn update_fits(u: UpdateView, version: HQMClientVersion) -> bool {
    &&& u.deltatime is Some <==> version.pings()
    &&& u.known_msgpos < 65536
    &&& u.chat matches Some((rep, message)) ==> rep < 8 && message.len() < 256
}

proof fn lemma_read_client_words(t: Seq<bool>, s: Seq<bool>, u: UpdateView)
    requires
        s.len() % 8 == 0,
        starts_with(t, put_client_words(s, u)),
    ensures
        word_at(pack(t), s.len(), 0) == u.game_id,
        parsed_input(pack(t), s.len() + 32) == u.input,
        put_client_words(s, u).len() == s.len() + 320,
        starts_with(put_client_words(s, u), s),
{
    let s0 = s;
    let s1 = put_u32(s0, u.game_id);
    assert(s1.len() == s.len() + 32);
    let s2 = put_u32(s1, u.input.stick_angle);
    assert(s2.len() == s.len() + 64);
    let s3 = put_u32(s2, u.input.turn);
    assert(s3.len() == s.len() + 96);
    let s4 = put_u32(s3, u.input.unknown);
    assert(s4.len() == s.len() + 128);
    let s5 = put_u32(s4, u.input.fwbw);
    assert(s5.len() == s.len() + 160);
    let s6 = put_u32(s5, u.input.stick.0);
    assert(s6.len() == s.len() + 192);
    let s7 = put_u32(s6, u.input.stick.1);
    assert(s7.len() == s.len() + 224);
    let s8 = put_u32(s7, u.input.head_rot);
    assert(s8.len() == s.len() + 256);
    let s9 = put_u32(s8, u.input.body_rot);
    assert(s9.len() == s.len() + 288);
    let s10 = put_u32(s9, u.input.keys);
    assert(s10.len() == s.len() + 320);
    lemma_read_u32(t, s9, u.input.keys);
    lemma_starts_with_trans(t, s10, s9);
    lemma_read_u32(t, s8, u.input.body_rot);
    lemma_starts_with_trans(t, s9, s8);
    lemma_read_u32(t, s7, u.input.head_rot);
    lemma_starts_with_trans(t, s8, s7);
    lemma_read_u32(t, s6, u.input.stick.1);
    lemma_starts_with_trans(t, s7, s6);
    lemma_read_u32(t, s5, u.input.stick.0);
    lemma_starts_with_trans(t, s6, s5);
    lemma_read_u32(t, s4, u.input.fwbw);
    lemma_starts_with_trans(t, s5, s4);
    lemma_read_u32(t, s3, u.input.unknown);
    lemma_starts_with_trans(t, s4, s3);
    lemma_read_u32(t, s2, u.input.turn);
    lemma_starts_with_trans(t, s3, s2);
    lemma_read_u32(t, s1, u.input.stick_angle);
    lemma_starts_with_trans(t, s2, s1);
    lemma_read_u32(t, s0, u.game_id);
    lemma_starts_with_trans(s10, s9, s8);
    lemma_starts_with_trans(s10, s8, s7);
    lemma_starts_with_trans(s10, s7, s6);
    lemma_starts_with_trans(s10, s6, s5);
    lemma_starts_with_trans(s10, s5, s4);
    lemma_starts_with_trans(s10, s4, s3);
    lemma_starts_with_trans(s10, s3, s2);
    lemma_starts_with_trans(s10, s2, s1);
    lemma_starts_with_trans(s10, s1, s0);
}

proof fn lemma_read_client_chat(t: Seq<bool>, s: Seq<bool>, chat: Option<(u8, Seq<u8>)>)
    requires
        starts_with(t, put_client_chat(s, chat)),
        chat matches Some((rep, message)) ==> rep < 8 && message.len() < 256,
    ensures
        parsed_chat(pack(t), s.len()) == chat,
        starts_with(put_client_chat(s, chat), s),
{
    lemma2_to64();
    match chat {
        Some((rep, message)) => {
            let a = put_bits(put_bits(put_bits(s, 1, 1), 3, rep as nat), 8, message.len());
            let u = put_bytes(a, message);
            assert(u.take(a.len() as int) =~= a);
            lemma_starts_with_trans(t, u, a);
            lemma_three_fields(t, s, 1, 1, 3, rep as nat, 8, message.len());
            lemma_starts_with_trans(u, a, s);
            lemma_small_mod(1, 2);
            lemma_small_mod(rep as nat, 8);
            lemma_small_mod(message.len(), 256);
            let rest = t.skip(u.len() as int);
            assert(u + rest =~= t);
            assert forall|i: int| 0 <= i < message.len() implies bytes_at(
                pack(t),
                s.len() + 12,
                message.len(),
            )[i] == message[i] by {
                law_bytes_read_back(a, message, rest, i);
            }
            assert(bytes_at(pack(t), s.len() + 12, message.len()) =~= message);
        },
        None => {
            lemma_read_bits(t, s, 1, 0);
            lemma_put_bits_extends(s, 1, 0);
        },
    }
}

/// The server reads from an update what the client wrote.
pub proof fn law_client_update_read_back(
    s: Seq<bool>,
    u: UpdateView,
    version: HQMClientVersion,
    rest: Seq<bool>,
)
    requires
        s.len() % 8 == 0,
        update_fits(u, version),
    ensures
        parsed_update(pack(put_client_update(s, u) + rest), s.len(), version) == u,
        starts_with(put_client_update(s, u), s),
{
    lemma2_to64();
    let all = put_client_update(s, u);
    let t = all + rest;
    lemma_starts_with_sum(all, rest);
    let a = put_client_words(s, u);
    let b = match u.deltatime {
        Some(deltatime) => put_u32(a, deltatime),
        None => a,
    };
    let c = put_u32(b, u.known_packet);
    let d = put_bits(c, 16, u.known_msgpos as nat);
    lemma_read_client_chat(t, d, u.chat);
    lemma_starts_with_trans(t, all, d);
    lemma_read_bits(t, c, 16, u.known_msgpos as nat);
    lemma_small_mod(u.known_msgpos as nat, 65536);
    lemma_put_bits_extends(c, 16, u.known_msgpos as nat);
    lemma_starts_with_trans(t, d, c);
    lemma_read_u32(t, b, u.known_packet);
    lemma_starts_with_trans(t, c, b);
    if let Some(deltatime) = u.deltatime {
        lemma_read_u32(t, a, deltatime);
        lemma_starts_with_trans(t, b, a);
    }
    lemma_read_client_words(t, s, u);
    lemma_starts_with_trans(all, d, c);
    lemma_starts_with_trans(all, c, b);
    assert(b.take(b.len() as int) =~= b);
    lemma_starts_with_trans(all, b, a);
    lemma_starts_with_trans(all, a, s);
}

/// When the server has read an update it stands behind what the client wrote.
pub proof fn law_client_update_is_read_to_its_end(
    s: Seq<bool>,
    u: UpdateView,
    version: HQMClientVersion,
    rest: Seq<bool>,
)
    requires
        s.len() % 8 == 0,
        update_fits(u, version),
    ensures
        update_end(pack(put_client_update(s, u) + rest), s.len(), version) == put_client_update(
            s,
            u,
        ).len(),
{
    lemma2_to64();
    let all = put_client_update(s, u);
    let t = all + rest;
    lemma_starts_with_sum(all, rest);
    let a = put_client_words(s, u);
    let b = match u.deltatime {
        Some(deltatime) => put_u32(a, deltatime),
        None => a,
    };
    let c = put_u32(b, u.known_packet);
    let d = put_bits(c, 16, u.known_msgpos as nat);
    lemma_client_words_len(s, u);
    lemma_read_client_chat(t, d, u.chat);
    if let Some((rep, message)) = u.chat {
        let e = put_bits(put_bits(put_bits(d, 1, 1), 3, rep as nat), 8, message.len());
        assert(all.take(e.len() as int) =~= e);
        lemma_starts_with_trans(t, all, e);
        lemma_three_fields(t, d, 1, 1, 3, rep as nat, 8, message.len());
        lemma_small_mod(message.len(), 256);
    }
}

proof fn lemma_client_words_len(s: Seq<bool>, u: UpdateView)
    requires
        s.len() % 8 == 0,
    ensures
        put_client_words(s, u).len() == s.len() + 320,
{
    let t = put_client_words(s, u);
    assert(t.take(t.len() as int) =~= t);
    lemma_read_client_words(t, s, u);
}

/// What the replay gets of a step can be read back: the score and the clock, the
/// objects, and the messages since the step before, in order. The objects have
/// to fit in the bits that they are written in, and the reader has to know the
/// step that they are coded against.
pub proof fn law_replay_read_back(game: GameView)
    requires
        ticks_wf(game.saved_ticks),
        game.replay_msg_pos <= game.replay_messages.len(),
        game.saved_ticks.len() > 0,
        forall|i: int|
            0 <= i < OBJECT_SLOTS ==> packet_fits(#[trigger] game.saved_ticks[0].packets[i]),
    ensures
        ({
            let bytes = pack(replay_bits(game));
            let base = base_packets(game.packet, game.saved_ticks, game.replay_last_packet);
            let (objects, q) = read_slots(bytes, 136, base, OBJECT_SLOTS as nat);
            let messages = game.replay_messages.skip(game.replay_msg_pos as int);
            &&& stream_value(bytes, 0, 8) == 5
            &&& read_status(bytes, 8) == wire_status(game)
            &&& stream_value(bytes, 72, 32) == game.packet
            &&& stream_value(bytes, 104, 32) == game.replay_last_packet
            &&& objects == game.saved_ticks[0].packets.take(OBJECT_SLOTS as int)
            &&& stream_value(bytes, q, 16) == messages.len() as u32 % 65536
            &&& stream_value(bytes, q + 16, 16) == game.replay_msg_pos as u32 % 65536
            &&& read_messages(bytes, q + 32, messages.len()).0 == wire_messages(messages)
            &&& read_messages(bytes, q + 32, messages.len()).1 == replay_bits(game).len()
        }),
{
    lemma2_to64();
    let t = replay_bits(game);
    let head = put_byte(Seq::empty(), 5);
    let a = replay_head(game);
    let b = put_objects(a, game.packet, game.saved_ticks, game.replay_last_packet);
    let messages = game.replay_messages.skip(game.replay_msg_pos as int);
    let count = messages.len() as u32 as nat;
    let msgpos = game.replay_msg_pos as u32 as nat;
    let c = put_bits(b, 16, count);
    let d = put_bits(c, 16, msgpos);
    let none = Seq::<bool>::empty();
    assert(t == put_messages(d, messages));
    assert(t + none =~= t);
    law_messages_read_back(d, messages, none);
    lemma_put_bits_extends(c, 16, msgpos);
    lemma_read_bits(t, c, 16, msgpos);
    lemma_starts_with_trans(t, d, c);
    lemma_put_bits_extends(b, 16, count);
    lemma_read_bits(t, b, 16, count);
    lemma_starts_with_trans(t, c, b);
    let rest = t.skip(b.len() as int);
    assert(b + rest =~= t);
    law_objects_read_back(a, game.packet, game.saved_ticks, game.replay_last_packet, rest);
    lemma_starts_with_trans(t, b, a);
    lemma_read_status(t, head, game);
    lemma_starts_with_trans(t, a, head);
    lemma_read_bits(t, align(none), 8, 5);
    lemma_small_mod(5, 256);
}

/// A client that asks what server this is reads the answer: the version of the
/// protocol, its own number, how many players there are and how many make a
/// team, and the name of the server, cut or followed by zeros.
pub proof fn law_info_read_back(
    ping: u32,
    player_count: nat,
    number_of_players: u32,
    server_name: Seq<char>,
    i: int,
)
    requires
        0 <= i < SERVER_NAME_BYTES,
    ensures
        ({
            let bytes = pack(info_bits(ping, player_count, number_of_players, server_name));
            let name = encode_utf8(server_name);
            &&& forall|k: int| 0 <= k < 4 ==> #[trigger] stream_byte(bytes, k) == game_header()[k]
            &&& stream_value(bytes, 32, 8) == 1
            &&& stream_value(bytes, 40, 8) == GAME_VERSION
            &&& stream_value(bytes, 48, 32) == ping
            &&& stream_value(bytes, 80, 8) == player_count % 256
            &&& stream_value(bytes, 88, 4) == 4
            &&& stream_value(bytes, 92, 4) == number_of_players % 16
            &&& stream_byte(bytes, 12 + i) == (if i < name.len() {
                name[i]
            } else {
                0
            })
            &&& bytes.len() == 12 + SERVER_NAME_BYTES
        }),
{
    lemma2_to64();
    let n = number_of_players as nat;
    let name = pad_bytes(encode_utf8(server_name), SERVER_NAME_BYTES as nat);
    let t = info_bits(ping, player_count, number_of_players, server_name);
    let h = put_header(Seq::empty(), 1);
    let a = put_bits(h, 8, GAME_VERSION as nat);
    let b = put_u32(a, ping);
    let c = put_bits(put_bits(put_bits(b, 8, player_count), 4, 4), 4, n);
    assert(t == put_bytes(c, name));
    let none = Seq::<bool>::empty();
    assert(t + none =~= t);
    assert(t.take(c.len() as int) =~= c);
    assert(t.take(t.len() as int) =~= t);
    lemma_three_fields(t, b, 8, player_count, 4, 4, 4, n);
    lemma_starts_with_trans(t, c, b);
    lemma_read_u32(t, a, ping);
    lemma_starts_with_trans(t, b, a);
    lemma_read_bits(t, h, 8, GAME_VERSION as nat);
    lemma_put_bits_extends(h, 8, GAME_VERSION as nat);
    lemma_starts_with_trans(t, a, h);
    lemma_read_header(t, 1);
    lemma_small_mod(GAME_VERSION as nat, 256);
    lemma_small_mod(4, 16);
    law_bytes_read_back(c, name, none, i);
}

} // verus!
