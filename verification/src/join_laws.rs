//! Who is in the server: who may join, how, and what happens when they leave.
use crate::behaviour::HQMServerBehaviour;
use crate::bits::{lemma_low_bits_value, low_bits, stream_bits, stream_byte, stream_value};
use crate::hqm_game::MessageView;
use crate::ice_laws::law_leaving_moves_nobody_else;
use crate::player_laws::law_last_administrator_opens_the_server;
use crate::players::{count_players, empty_slot, slot_of_addr, HQMSocketAddr, PlayerView};
use crate::search::lemma_first_from;
use crate::server::ServerView;
use crate::session::{bytes_at, exit_done, join_done, message_handled, ReactionView};
use crate::terms::{
    announced, arrives, byte_at, goes_by, is_core, is_first_free, is_message, is_name_len,
    is_stranger, leaves, sends_from, server_line, taken,
};
use crate::text::{before_null, is_white_space, player_name_of, trimmed};
use crate::updates::game_header;
use vstd::arithmetic::div_mod::{lemma_basic_div, lemma_small_mod};
use vstd::arithmetic::power2::{lemma2_to64, lemma_pow2_pos, pow2};
use vstd::prelude::*;
use vstd::utf8::{decode_utf8, valid_utf8};

verus! {

/// The number of players is the number of slots that are taken.
pub proof fn law_players_are_counted(slots: Seq<Option<PlayerView>>)
    ensures
        taken(slots, slots.len() as int).finite(),
        count_players(slots) == taken(slots, slots.len() as int).len(),
    decreases slots.len(),
{
    let n = slots.len() as int;
    let set = taken(slots, n);
    if n == 0 {
        assert(set =~= Set::<int>::empty());
    } else {
        let init = slots.drop_last();
        law_players_are_counted(init);
        let before = taken(init, n - 1);
        if slots.last() is Some {
            assert(set =~= before.insert(n - 1));
        } else {
            assert(set =~= before);
        }
    }
}

/// The slot that is found for an address is the first whose player sends from it,
/// and none is found exactly if nobody does.
pub proof fn law_address_is_found(slots: Seq<Option<PlayerView>>, addr: HQMSocketAddr, i: usize)
    requires
        slots.len() <= usize::MAX,
    ensures
        slot_of_addr(slots, addr) == Some(i) <==> sends_from(slots, i as int, addr),
        slot_of_addr(slots, addr) is None <==> is_stranger(slots, addr),
{
    let p = |p: Option<PlayerView>| p is Some && p->0.addr == addr;
    lemma_first_from(slots, p, 0);
    if let Some(a) = slot_of_addr(slots, addr) {
        assert(slots[a as int] is Some);
        assert forall|j: int| 0 <= j < a && (#[trigger] slots[j]) is Some implies slots[j]->0.addr
            != addr by {
            assert(!p(slots[j]));
        }
    } else {
        assert forall|j: int| 0 <= j < slots.len() && (#[trigger] slots[j]) is Some implies
            slots[j]->0.addr != addr by {
            assert(!p(slots[j]));
        }
    }
}

/// The next player gets the first slot without one, and there is one exactly if
/// not all are taken.
pub proof fn law_free_slot_is_found(slots: Seq<Option<PlayerView>>, i: usize)
    requires
        slots.len() <= usize::MAX,
    ensures
        empty_slot(slots) == Some(i) <==> is_first_free(slots, i as int),
        empty_slot(slots) is None <==> forall|j: int|
            0 <= j < slots.len() ==> (#[trigger] slots[j]) is Some,
{
    let p = |p: Option<PlayerView>| p is None;
    lemma_first_from(slots, p, 0);
    if let Some(a) = empty_slot(slots) {
        assert(slots[a as int] is None);
        assert forall|j: int| 0 <= j < a implies (#[trigger] slots[j]) is Some by {
            assert(!p(slots[j]));
        }
    } else {
        assert forall|j: int| 0 <= j < slots.len() implies (#[trigger] slots[j]) is Some by {
            assert(!p(slots[j]));
        }
    }
}

/// Eight bits at a byte boundary are the byte that stands there.
pub proof fn law_byte_is_read(bytes: Seq<u8>, k: nat)
    ensures
        stream_value(bytes, 8 * k, 8) == byte_at(bytes, k as int),
        stream_byte(bytes, k as int) == byte_at(bytes, k as int),
{
    reveal(stream_value);
    lemma2_to64();
    let v = byte_at(bytes, k as int);
    assert forall|j: int| 0 <= j < 8 implies stream_bits(bytes, 8 * k, 8)[j] == low_bits(
        v as nat,
        8,
    )[j] by {
        assert((8 * k + j) / 8 == k && (8 * k + j) % 8 == j);
        if k >= bytes.len() {
            assert(0nat / pow2(j as nat) == 0) by {
                lemma_pow2_pos(j as nat);
                lemma_basic_div(0, pow2(j as nat) as int);
            }
        }
    }
    assert(stream_bits(bytes, 8 * k, 8) =~= low_bits(v as nat, 8));
    lemma_low_bits_value(v as nat, 8);
    lemma_small_mod(v as nat, 256);
}

proof fn lemma_before_null(bytes: Seq<u8>, n: int)
    requires
        0 <= n <= bytes.len(),
        forall|j: int| 0 <= j < n ==> #[trigger] bytes[j] != 0,
        n == bytes.len() || bytes[n] == 0,
    ensures
        before_null(bytes) == bytes.take(n),
    decreases n,
{
    if n == 0 {
        assert(bytes.take(0) =~= Seq::<u8>::empty());
    } else {
        let rest = bytes.drop_first();
        assert forall|j: int| 0 <= j < n - 1 implies #[trigger] rest[j] != 0 by {
            assert(bytes[j + 1] != 0);
        }
        lemma_before_null(rest, n - 1);
        assert(seq![bytes[0]] + rest.take(n - 1) =~= bytes.take(n));
    }
}

/// What is left of a text without the white space at both ends.
proof fn lemma_core(text: Seq<char>) -> (r: (int, int))
    ensures
        is_core(text, r.0, r.1),
        trimmed(text) == text.subrange(r.0, r.1),
    decreases text.len(),
{
    if text.len() == 0 {
        assert(text.subrange(0, 0) =~= text);
        (0, 0)
    } else if is_white_space(text[0]) {
        let rest = text.drop_first();
        let (a, b) = lemma_core(rest);
        assert forall|j: int| 0 <= j < a + 1 implies is_white_space(#[trigger] text[j]) by {
            if j > 0 {
                assert(text[j] == rest[j - 1]);
            }
        }
        assert forall|j: int| b + 1 <= j < text.len() implies is_white_space(
            #[trigger] text[j],
        ) by {
            assert(text[j] == rest[j - 1]);
        }
        assert(rest.subrange(a, b) =~= text.subrange(a + 1, b + 1));
        (a + 1, b + 1)
    } else if is_white_space(text.last()) {
        let rest = text.drop_last();
        let (a, b) = lemma_core(rest);
        assert forall|j: int| 0 <= j < a implies is_white_space(#[trigger] text[j]) by {
            assert(text[j] == rest[j]);
        }
        assert forall|j: int| b <= j < text.len() implies is_white_space(#[trigger] text[j]) by {
            if j < text.len() - 1 {
                assert(text[j] == rest[j]);
            }
        }
        assert(rest.subrange(a, b) =~= text.subrange(a, b));
        (a, b)
    } else {
        assert(text.subrange(0, text.len() as int) =~= text);
        (0, text.len() as int)
    }
}

/// A name of `n` bytes is taken as it is, but for the white space at both ends. It
/// is refused exactly if it is not valid UTF-8.
pub proof fn law_name_is_kept(bytes: Seq<u8>, n: int)
    requires
        0 <= n <= bytes.len(),
        forall|j: int| 0 <= j < n ==> #[trigger] bytes[j] != 0,
        n == bytes.len() || bytes[n] == 0,
    ensures
        player_name_of(bytes) is Some <==> valid_utf8(bytes.take(n)),
        player_name_of(bytes) matches Some(name) ==> goes_by(decode_utf8(bytes.take(n)), name),
{
    lemma_before_null(bytes, n);
    let text = decode_utf8(bytes.take(n));
    let (a, b) = lemma_core(text);
    assert(is_core(text, a, b));
}

/// The name under which a client may join, where the version is byte `k` of the
/// message: there is one as long as there is room, the version is right, the
/// address is neither connected nor banned, joining is allowed, and the name is
/// valid. Otherwise there is none.
pub proof fn law_who_may_join(s: ServerView, addr: HQMSocketAddr, bytes: Seq<u8>, k: nat, n: int)
    requires
        s.players.len() <= usize::MAX,
        is_name_len(bytes, k as int + 1, n),
    ensures
        ({
            let name_bytes = Seq::new(n as nat, |j: int| byte_at(bytes, k + 1 + j));
            let name = s.join_name(addr, bytes, 8 * k);
            &&& name is Some <==> {
                &&& taken(s.players, s.players.len() as int).len() < s.config.player_max
                &&& byte_at(bytes, k as int) == 55
                &&& is_stranger(s.players, addr)
                &&& !s.ban_list.contains(addr.ip)
                &&& s.allow_join
                &&& valid_utf8(name_bytes)
            }
            &&& name is Some ==> goes_by(decode_utf8(name_bytes), name->0)
            &&& name is Some ==> s.join_end(addr, bytes, 8 * k) == 8 * (k + 33)
        }),
{
    let name_bytes = Seq::new(n as nat, |j: int| byte_at(bytes, k + 1 + j));
    law_players_are_counted(s.players);
    law_address_is_found(s.players, addr, 0);
    law_byte_is_read(bytes, k);
    let field = bytes_at(bytes, 8 * k + 8, 32);
    assert forall|j: int| 0 <= j < 32 implies #[trigger] field[j] == byte_at(
        bytes,
        k + 1 + j,
    ) by {
        law_byte_is_read(bytes, (k + 1 + j) as nat);
    }
    assert forall|j: int| 0 <= j < n implies #[trigger] field[j] != 0 by {
        assert(byte_at(bytes, (k + 1) + j) != 0);
    }
    law_name_is_kept(field, n);
    assert(field.take(n) =~= name_bytes);
}

/// Who is given slot `i` arrives there.
pub proof fn law_newcomer_arrives(s: ServerView, i: usize, name: Seq<char>, addr: HQMSocketAddr)
    requires
        i < s.players.len(),
    ensures
        arrives(s, s.with_new_player(i, name, addr), i, name, addr),
{
    reveal(arrives);
    reveal(ServerView::broadcast);
    reveal(ServerView::with_new_player);
    let welcome = Seq::new(
        s.config.welcome.len(),
        |k: int| server_line(s.config.welcome[k]),
    );
    assert(s.welcome() =~= welcome);
}

/// What is said to everybody everybody hears.
pub proof fn law_everybody_hears(s: ServerView, message: MessageView, kept: bool)
    ensures
        announced(s, s.broadcast(message, kept), message, kept),
{
    reveal(ServerView::broadcast);
}

/// Who leaves is gone.
pub proof fn law_who_leaves_is_gone(s: ServerView, i: usize)
    requires
        s.numbered(),
        i < s.players.len(),
        s.players[i as int] is Some,
    ensures
        leaves(s, s.without_player(i), i),
{
    reveal(leaves);
    law_leaving_moves_nobody_else(s, i);
    law_last_administrator_opens_the_server(s, i);
    assert forall|j: int|
        0 <= j < s.players.len() && j != i && (#[trigger] s.players[j]) is Some implies s.player(
        j as usize,
    ) == s.players[j] by {}
    assert((forall|j: usize|
        j != i && (#[trigger] s.player(j)) is Some ==> !s.player(j)->0.is_admin) ==> (forall|
        j: int,
    |
        0 <= j < s.players.len() && j != i && (#[trigger] s.players[j]) is Some
            ==> !s.players[j]->0.is_admin)) by {
        if forall|j: usize| j != i && (#[trigger] s.player(j)) is Some ==> !s.player(j)->0.is_admin {
            assert forall|j: int|
                0 <= j < s.players.len() && j != i && (
                #[trigger] s.players[j]) is Some implies !s.players[j]->0.is_admin by {
                assert(s.player(j as usize) is Some);
            }
        }
    }
}

/// A message with another header is not looked at.
pub proof fn lemma_header(msg: Seq<u8>)
    ensures
        bytes_at(msg, 0, 4) == game_header() <==> is_message(msg, byte_at(msg, 4)),
        stream_byte(msg, 4) == byte_at(msg, 4),
{
    let h = bytes_at(msg, 0, 4);
    law_byte_is_read(msg, 0);
    law_byte_is_read(msg, 1);
    law_byte_is_read(msg, 2);
    law_byte_is_read(msg, 3);
    law_byte_is_read(msg, 4);
    assert(h[0] == byte_at(msg, 0) && h[1] == byte_at(msg, 1) && h[2] == byte_at(msg, 2) && h[3]
        == byte_at(msg, 3));
    if is_message(msg, byte_at(msg, 4)) {
        assert(h =~= game_header());
    }
    if h == game_header() {
        assert(h[0] == 0x48 && h[1] == 0x6f && h[2] == 0x63 && h[3] == 0x6b);
    }
}

/// A client that asks to join gets in, as long as there is room and a free slot,
/// the version is right, the address is neither connected nor banned, joining is
/// allowed, and the name is valid. It gets the first free slot; the rules of play
/// hear of it; then everybody is told.
pub proof fn law_join_is_granted<B: HQMServerBehaviour>(
    b0: B,
    s0: ServerView,
    addr: HQMSocketAddr,
    msg: Seq<u8>,
    now: u64,
    b1: B,
    s1: ServerView,
    reaction: ReactionView,
    i: usize,
    n: int,
)
    requires
        s0.players.len() <= usize::MAX,
        message_handled(b0, s0, addr, msg, now, b1, s1, reaction),
        is_message(msg, 2),
        byte_at(msg, 5) == 55,
        taken(s0.players, s0.players.len() as int).len() < s0.config.player_max,
        is_stranger(s0.players, addr),
        !s0.ban_list.contains(addr.ip),
        s0.allow_join,
        is_name_len(msg, 6, n),
        valid_utf8(Seq::new(n as nat, |j: int| byte_at(msg, 6 + j))),
        is_first_free(s0.players, i as int),
    ensures
        reaction is Nothing,
        exists|name: Seq<char>, t: ServerView, s: ServerView|
            #![trigger arrives(s0, t, i, name, addr), B::player_joined(b0, t, i, b1, s)]
            {
                &&& goes_by(decode_utf8(Seq::new(n as nat, |j: int| byte_at(msg, 6 + j))), name)
                &&& arrives(s0, t, i, name, addr)
                &&& B::player_joined(b0, t, i, b1, s)
                &&& announced(s, s1, server_line(name + " joined"@), false)
            },
{
    reveal(join_done);
    lemma_header(msg);
    law_who_may_join(s0, addr, msg, 5, n);
    law_free_slot_is_found(s0.players, i);
    let bytes = Seq::new(n as nat, |j: int| byte_at(msg, 6 + j));
    assert(bytes =~= Seq::new(n as nat, |j: int| byte_at(msg, 5 + 1 + j)));
    let name = s0.join_name(addr, msg, 40)->0;
    let t = s0.with_new_player(i, name, addr);
    law_newcomer_arrives(s0, i, name, addr);
    let s = choose|s: ServerView| #[trigger]
        B::player_joined(b0, t, i, b1, s) && s1 == s.chat(None, name + " joined"@);
    law_everybody_hears(s, server_line(name + " joined"@), false);
    assert(arrives(s0, t, i, name, addr));
}

/// A request to join is refused, and changes nothing, if there is no room or no
/// free slot, the version is not the right one, the address is connected or
/// banned, joining is not allowed, or the name is not valid.
pub proof fn law_join_is_refused<B: HQMServerBehaviour>(
    b0: B,
    s0: ServerView,
    addr: HQMSocketAddr,
    msg: Seq<u8>,
    now: u64,
    b1: B,
    s1: ServerView,
    reaction: ReactionView,
    n: int,
)
    requires
        s0.players.len() <= usize::MAX,
        message_handled(b0, s0, addr, msg, now, b1, s1, reaction),
        is_message(msg, 2),
        is_name_len(msg, 6, n),
        ({
            ||| taken(s0.players, s0.players.len() as int).len() >= s0.config.player_max
            ||| byte_at(msg, 5) != 55
            ||| !is_stranger(s0.players, addr)
            ||| s0.ban_list.contains(addr.ip)
            ||| !s0.allow_join
            ||| !valid_utf8(Seq::new(n as nat, |j: int| byte_at(msg, 6 + j)))
            ||| forall|j: int| 0 <= j < s0.players.len() ==> (#[trigger] s0.players[j]) is Some
        }),
    ensures
        b1 == b0,
        s1 == s0,
        reaction is Nothing,
{
    reveal(join_done);
    lemma_header(msg);
    law_who_may_join(s0, addr, msg, 5, n);
    law_free_slot_is_found(s0.players, 0);
    assert(Seq::new(n as nat, |j: int| byte_at(msg, 6 + j)) =~= Seq::new(
        n as nat,
        |j: int| byte_at(msg, 5 + 1 + j),
    ));
}

/// A client that says that it leaves is gone: the rules of play hear of it, the
/// player is removed, and everybody is told. Who is not connected is not heard.
pub proof fn law_exit_is_granted<B: HQMServerBehaviour>(
    b0: B,
    s0: ServerView,
    addr: HQMSocketAddr,
    msg: Seq<u8>,
    now: u64,
    b1: B,
    s1: ServerView,
    reaction: ReactionView,
    i: usize,
)
    requires
        s0.players.len() <= usize::MAX,
        message_handled(b0, s0, addr, msg, now, b1, s1, reaction),
        is_message(msg, 7),
    ensures
        reaction is Nothing,
        is_stranger(s0.players, addr) ==> b1 == b0 && s1 == s0,
        sends_from(s0.players, i as int, addr) ==> exists|s: ServerView|
            {
                &&& #[trigger] B::player_exits(b0, s0, i, b1, s)
                &&& s.numbered() ==> exists|t: ServerView| #[trigger]
                    leaves(s, t, i) && announced(
                        t,
                        s1,
                        server_line(s.players[i as int]->0.player_name + " exited"@),
                        false,
                    )
            },
{
    reveal(exit_done);
    lemma_header(msg);
    law_address_is_found(s0.players, addr, i);
    if sends_from(s0.players, i as int, addr) {
        let s = choose|s: ServerView| #[trigger]
            B::player_exits(b0, s0, i, b1, s) && s.player(i) is Some && s1 == s.without_player(
                i,
            ).chat(None, s.player(i)->0.player_name + " exited"@);
        let t = s.without_player(i);
        let line = server_line(s.player(i)->0.player_name + " exited"@);
        law_everybody_hears(t, line, false);
        if s.numbered() {
            law_who_leaves_is_gone(s, i);
            assert(leaves(s, t, i));
        }
        assert(B::player_exits(b0, s0, i, b1, s));
    }
}

/// A message with another header, or with a command byte that stands for nothing,
/// changes nothing.
pub proof fn law_other_messages_are_ignored<B: HQMServerBehaviour>(
    b0: B,
    s0: ServerView,
    addr: HQMSocketAddr,
    msg: Seq<u8>,
    now: u64,
    b1: B,
    s1: ServerView,
    reaction: ReactionView,
)
    requires
        message_handled(b0, s0, addr, msg, now, b1, s1, reaction),
        !is_message(msg, 0),
        !is_message(msg, 2),
        !is_message(msg, 4),
        !is_message(msg, 7),
        !is_message(msg, 8),
        !is_message(msg, 16),
    ensures
        b1 == b0,
        s1 == s0,
        reaction is Nothing,
{
    lemma_header(msg);
}

} // verus!
