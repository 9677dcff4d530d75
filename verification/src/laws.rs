//! What holds of the protocol and of the server as a whole.
use crate::behaviour::HQMServerBehaviour;
use crate::bits::{
    align, align_pos, bits_value, byte_count, bytes_bits, lemma_byte_bits, lemma_low_bits_value,
    lemma_pack_bits, low_bits, pack, put_bits, put_bytes, put_u32, stream_bits, stream_byte,
    stream_value,
};
use crate::hqm_game::{GameView, MessageView};
use crate::hqm_parse::{pos_form, put_pos};
use crate::invariants::{
    keeps_consistent, lemma_broadcast_consistent, lemma_same_consistent,
    lemma_without_player_consistent, without_skaters,
};
use crate::players::count_players;
use crate::server::{player_news, ServerView};
use crate::terms::byte_at;
use crate::tick::{step_ended, tick_started, timeout_done, timeouts_done, PhaseView};
use vstd::arithmetic::div_mod::{lemma_basic_div, lemma_small_mod};
use vstd::arithmetic::mul::lemma_mul_is_distributive_add;
use vstd::arithmetic::power2::{lemma2_to64, lemma_pow2_adds, lemma_pow2_pos, pow2};
use vstd::prelude::*;

verus! {

/// What has been written, with more behind it or not, is what is read.
pub proof fn law_written_bits_are_read(s: Seq<bool>, p: nat, n: nat)
    requires
        p + n <= s.len(),
    ensures
        stream_bits(pack(s), p, n) == s.subrange(p as int, (p + n) as int),
        stream_value(pack(s), p, n) == bits_value(s.subrange(p as int, (p + n) as int)),
{
    reveal(stream_value);
    lemma_pack_bits(s);
    let bytes = pack(s);
    assert forall|i: int| 0 <= i < n implies stream_bits(bytes, p, n)[i] == s[p + i] by {
        assert(bytes_bits(bytes)[p + i] == align(s)[p + i]);
    }
    assert(stream_bits(bytes, p, n) =~= s.subrange(p as int, (p + n) as int));
}

/// Bits take as few bytes as they fit in, and the unused bits of the last byte are
/// zero.
pub proof fn law_bits_are_packed(s: Seq<bool>, p: nat)
    ensures
        0 <= 8 * pack(s).len() - s.len() < 8,
        stream_value(pack(s), p, 1) == (if p < s.len() && s[p as int] {
            1nat
        } else {
            0
        }),
{
    reveal(stream_value);
    lemma2_to64();
    lemma_pack_bits(s);
    let bytes = pack(s);
    let b = stream_bits(bytes, p, 1);
    if p < 8 * bytes.len() {
        assert(bytes_bits(bytes)[p as int] == align(s)[p as int]);
    }
    assert(b[0] == (p < s.len() && s[p as int]));
    assert(b.drop_last() =~= Seq::<bool>::empty());
    assert(bits_value(b.drop_last()) == 0);
}

/// A value of `n` bits is read as it was written, modulo `2^n`, whatever stands
/// before and behind it.
pub proof fn law_bits_read_back(s: Seq<bool>, n: nat, v: nat, rest: Seq<bool>)
    ensures
        stream_value(pack(put_bits(s, n, v) + rest), s.len(), n) == v % pow2(n),
{
    let t = put_bits(s, n, v) + rest;
    law_written_bits_are_read(t, s.len(), n);
    assert(t.subrange(s.len() as int, (s.len() + n) as int) =~= low_bits(v, n));
    lemma_low_bits_value(v, n);
}

/// A 32-bit value is read as it was written.
pub proof fn law_u32_read_back(s: Seq<bool>, v: u32, rest: Seq<bool>)
    ensures
        stream_value(pack(put_u32(s, v) + rest), align_pos(s.len()), 32) == v,
{
    law_bits_read_back(align(s), 32, v as nat, rest);
    lemma2_to64();
    lemma_small_mod(v as nat, pow2(32));
}

/// Bytes are read as they were written.
pub proof fn law_bytes_read_back(s: Seq<bool>, bytes: Seq<u8>, rest: Seq<bool>, i: int)
    requires
        0 <= i < bytes.len(),
    ensures
        stream_byte(pack(put_bytes(s, bytes) + rest), byte_count(s.len()) + i) == bytes[i],
{
    let t = put_bytes(s, bytes) + rest;
    let k = byte_count(s.len()) + i;
    let chunk = align(t).subrange(8 * k, 8 * k + 8);
    assert(chunk =~= low_bits(bytes[i] as nat, 8)) by {
        assert forall|j: int| 0 <= j < 8 implies chunk[j] == low_bits(bytes[i] as nat, 8)[j] by {
            assert(bytes_bits(bytes)[8 * i + j] == low_bits(bytes[i] as nat, 8)[j]);
        }
    }
    lemma_byte_bits(bytes[i]);
}

/// A single bit is read from the byte that it stands in, the lowest bit first.
/// Behind the last byte there are zeros.
pub proof fn law_bit_is_read(bytes: Seq<u8>, p: nat)
    ensures
        stream_value(bytes, p, 1) == (byte_at(bytes, p as int / 8) as nat / pow2(p % 8)) % 2,
{
    reveal(stream_value);
    let s = stream_bits(bytes, p, 1);
    lemma2_to64();
    assert(s.drop_last() =~= Seq::<bool>::empty());
    assert(bits_value(s.drop_last()) == 0);
    assert(bits_value(s) == if s.last() {
        1nat
    } else {
        0
    });
    lemma_pow2_pos(p % 8);
    lemma_basic_div(0, pow2(p % 8) as int);
}

proof fn lemma_bits_value_sum(a: Seq<bool>, b: Seq<bool>)
    ensures
        bits_value(a + b) == bits_value(a) + pow2(a.len()) * bits_value(b),
    decreases b.len(),
{
    if b.len() == 0 {
        assert(a + b =~= a);
        assert(pow2(a.len()) * 0 == 0);
    } else {
        let init = b.drop_last();
        assert((a + b).drop_last() =~= a + init);
        lemma_bits_value_sum(a, init);
        lemma_pow2_adds(a.len(), init.len());
        let top = if b.last() {
            pow2(init.len())
        } else {
            0
        };
        lemma_mul_is_distributive_add(
            pow2(a.len()) as int,
            bits_value(init) as int,
            top as int,
        );
        assert(pow2(a.len()) * 0 == 0);
    }
}

/// The bits that come later count for more: a value of `n + m` bits is that of its
/// first `n` bits and `2^n` times that of the others.
pub proof fn law_value_is_read_in_parts(bytes: Seq<u8>, p: nat, n: nat, m: nat)
    ensures
        stream_value(bytes, p, n + m) == stream_value(bytes, p, n) + pow2(n) * stream_value(
            bytes,
            p + n,
            m,
        ),
{
    reveal(stream_value);
    assert(stream_bits(bytes, p, n + m) =~= stream_bits(bytes, p, n) + stream_bits(
        bytes,
        p + n,
        m,
    ));
    lemma_bits_value_sum(stream_bits(bytes, p, n), stream_bits(bytes, p + n, m));
}

/// What a client that knows `old_v` makes of a field: a difference in two's
/// complement, or the whole value.
pub open spec fn decoded_pos(tag: nat, field: nat, old_v: int) -> int {
    if tag == 0 {
        old_v + signed(field, 8)
    } else if tag == 1 {
        old_v + signed(field, 64)
    } else if tag == 2 {
        old_v + signed(field, 4096)
    } else {
        field as int
    }
}

/// The number that `field` stands for in two's complement.
pub open spec fn signed(field: nat, modulus: nat) -> int {
    if 2 * field >= modulus {
        field - modulus
    } else {
        field as int
    }
}

/// The width of the field behind the two bits that choose the form of a coordinate.
pub open spec fn pos_width(tag: nat, n: nat) -> nat {
    if tag == 0 {
        3
    } else if tag == 1 {
        6
    } else if tag == 2 {
        12
    } else {
        n
    }
}

/// A client that knows the old value of a coordinate decodes the new one from
/// what was written, as long as the coordinate fits in its `n` bits.
pub proof fn law_coordinate_read_back(
    s: Seq<bool>,
    n: nat,
    v: u32,
    old_v: Option<u32>,
    rest: Seq<bool>,
)
    requires
        v < pow2(n),
    ensures
        ({
            let bytes = pack(put_pos(s, n, v, old_v) + rest);
            let tag = stream_value(bytes, s.len(), 2);
            let field = stream_value(bytes, s.len() + 2, pos_width(tag, n));
            &&& decoded_pos(
                tag,
                field,
                match old_v {
                    Some(o) => o as int,
                    None => 0,
                },
            ) == v
            &&& old_v is None ==> tag == 3
        }),
{
    reveal(put_pos);
    lemma2_to64();
    let (tag, width, field) = pos_form(n, v, old_v);
    let head = put_bits(s, 2, tag);
    let all = put_bits(head, width, field) + rest;
    law_bits_read_back(s, 2, tag, low_bits(field, width) + rest);
    assert(put_bits(s, 2, tag) + (low_bits(field, width) + rest) =~= all);
    law_bits_read_back(head, width, field, rest);
    lemma_small_mod(tag, 4);
    assert(field < pow2(width));
    lemma_small_mod(field, pow2(width));
    assert(pos_width(tag, n) == width);
}

/// Announcing players changes nobody's place.
proof fn lemma_announce_all_consistent(s: ServerView, list: Seq<(usize, Seq<char>)>)
    requires
        s.consistent(),
    ensures
        s.announce_all(list).consistent(),
    decreases list.len(),
{
    if list.len() > 0 {
        lemma_announce_all_consistent(s, list.drop_last());
        lemma_broadcast_consistent(
            s.announce_all(list.drop_last()),
            player_news(list.last().0, list.last().1, None, true),
            true,
        );
    }
}

/// A server is consistent after a new game without skaters has started.
pub proof fn law_new_game_keeps_consistency(s: ServerView, game: GameView)
    requires
        s.consistent(),
        without_skaters(game.world),
    ensures
        s.after_new_game(game).consistent(),
{
    reveal(ServerView::consistent);
    reveal(ServerView::reset);
    reveal(ServerView::after_new_game);
    let t = s.reset(game);
    assert forall|i: int, j: int|
        0 <= i < j < t.players.len() && (#[trigger] t.players[i]) is Some && (
        #[trigger] t.players[j]) is Some implies t.players[i]->0.addr != t.players[j]->0.addr by {
        assert(s.players[i] is Some && s.players[j] is Some);
    }
    assert(t.consistent());
    lemma_announce_all_consistent(t, s.roster());
}

/// A server without players, in a game without skaters, is consistent.
pub proof fn law_new_server_is_consistent(s: ServerView)
    requires
        s.players.len() <= usize::MAX,
        forall|i: int| 0 <= i < s.players.len() ==> #[trigger] s.players[i] is None,
        without_skaters(s.game.world),
    ensures
        s.consistent(),
        s.in_sync(),
{
    reveal(ServerView::consistent);
    reveal(ServerView::in_sync);
}

/// Telling who has timed out changes nobody's place.
proof fn lemma_tell_timed_out_consistent(s: ServerView, list: Seq<(usize, Seq<char>)>)
    requires
        s.consistent(),
    ensures
        s.tell_timed_out(list).consistent(),
    decreases list.len(),
{
    if list.len() > 0 {
        lemma_tell_timed_out_consistent(s, list.drop_last());
        lemma_broadcast_consistent(
            s.tell_timed_out(list.drop_last()),
            MessageView::Chat { player_index: None, message: list.last().1 + " timed out"@ },
            false,
        );
    }
}

proof fn lemma_timeouts_consistent<B: HQMServerBehaviour>(
    b0: B,
    s0: ServerView,
    list: Seq<(usize, Seq<char>)>,
    b1: B,
    s1: ServerView,
)
    requires
        keeps_consistent::<B>(),
        s0.consistent(),
        timeouts_done(b0, s0, list, b1, s1),
    ensures
        s1.consistent(),
    decreases list.len(),
{
    if list.len() > 0 {
        let i = list.last().0;
        let (b, s) = choose|b: B, s: ServerView|
            timeouts_done(b0, s0, list.drop_last(), b, s) && #[trigger] timeout_done(
                b,
                s,
                i,
                b1,
                s1,
            );
        lemma_timeouts_consistent(b0, s0, list.drop_last(), b, s);
        let t = choose|t: ServerView| #[trigger]
            B::player_exits(b, s, i, b1, t) && s1 == t.without_player(i);
        lemma_without_player_consistent(t, i);
    }
}

/// The start of a simulation step keeps the server consistent, if the rules of
/// play see to it that they keep it so.
pub proof fn law_ticks_keep_consistency<B: HQMServerBehaviour>(
    b0: B,
    s0: ServerView,
    b1: B,
    s1: ServerView,
    phase: PhaseView,
)
    requires
        keeps_consistent::<B>(),
        s0.consistent(),
        tick_started(b0, s0, b1, s1, phase),
    ensures
        s1.consistent(),
{
    reveal(ServerView::aged);
    reveal(ServerView::with_inputs);
    if count_players(s0.players) != 0 {
        let list = s0.aged().timed_out();
        let (b, s, t) = choose|b: B, s: ServerView, t: ServerView|
            #![trigger timeouts_done(b0, s0.aged(), list, b, s), B::tick_begins(b, s.tell_timed_out(list), b1, t)]
            timeouts_done(b0, s0.aged(), list, b, s) && B::tick_begins(
                b,
                s.tell_timed_out(list),
                b1,
                t,
            ) && s1 == t.with_inputs();
        lemma_same_consistent(s0, s0.aged());
        lemma_timeouts_consistent(b0, s0.aged(), list, b, s);
        lemma_tell_timed_out_consistent(s, list);
        lemma_same_consistent(t, t.with_inputs());
    } else if s0.game.active {
        let game = choose|game: GameView| #[trigger]
            B::game_created(b0, b1, game) && s1 == (ServerView {
                allow_join: true,
                ..s0.after_new_game(game)
            }) && phase == PhaseView::Abandoned(s0.replay());
        law_new_game_keeps_consistency(s0, game);
        lemma_same_consistent(s0.after_new_game(game), s1);
    }
}

/// The end of a simulation step keeps the server consistent, if the rules of
/// play see to it that they keep it so.
pub proof fn law_step_ends_keep_consistency<B: HQMServerBehaviour>(
    b0: B,
    s0: ServerView,
    events: Seq<B::Event>,
    now: u64,
    b1: B,
    s1: ServerView,
)
    requires
        keeps_consistent::<B>(),
        s0.consistent(),
        step_ended(b0, s0, events, now, b1, s1),
    ensures
        s1.consistent(),
{
    reveal(ServerView::stepped);
    let (t, capacity) = choose|t: ServerView, capacity: usize|
        #![trigger B::tick_ends(b0, s0, events, b1, t), t.stepped(now, capacity)]
        B::tick_ends(b0, s0, events, b1, t) && t.game.saved_ticks.len() <= capacity && s1
            == t.stepped(now, capacity);
    lemma_same_consistent(t, s1);
}

} // verus!
