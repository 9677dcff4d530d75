//! The words that the laws are stated in. None of them has a part in what the
//! server does.
use crate::hqm_game::{
    GameView, HQMGameObject, HQMObjectPacket, HQMPlayerInput, HQMSkater, HQMSkaterHand,
    MessageView, WorldView,
};
use crate::players::{HQMClientVersion, HQMMuteStatus, HQMSocketAddr, PlayerView};
use crate::server::ServerView;
use crate::session::UpdateView;
use crate::text::{decimal, is_white_space, lowercase};
use vstd::prelude::*;

verus! {

/// Object slot `k` holds a skater of player `i`.
pub open spec fn skates(objects: Seq<HQMGameObject>, i: usize, k: int) -> bool {
    &&& 0 <= k < objects.len()
    &&& objects[k] matches HQMGameObject::Player(skater) && skater.connected_player_index == i
}

/// Object slot `k` holds a skater of player `i`, and no slot before it does.
pub open spec fn stands_at(objects: Seq<HQMGameObject>, i: usize, k: int) -> bool {
    skates(objects, i, k) && forall|j: int| 0 <= j < k ==> !#[trigger] skates(objects, i, j)
}

/// The slots below `n` in which there is a player.
pub open spec fn taken(slots: Seq<Option<PlayerView>>, n: int) -> Set<int> {
    Set::new(|i: int| 0 <= i < n && i < slots.len() && slots[i] is Some)
}

/// Slot `i` holds the first player who sends from `addr`.
pub open spec fn sends_from(
    slots: Seq<Option<PlayerView>>,
    i: int,
    addr: HQMSocketAddr,
) -> bool {
    &&& 0 <= i < slots.len()
    &&& slots[i] matches Some(p) && p.addr == addr
    &&& forall|j: int|
        0 <= j < i && (#[trigger] slots[j]) is Some ==> slots[j]->0.addr != addr
}

/// Nobody sends from `addr`.
pub open spec fn is_stranger(
    slots: Seq<Option<PlayerView>>,
    addr: HQMSocketAddr,
) -> bool {
    forall|j: int|
        0 <= j < slots.len() && (#[trigger] slots[j]) is Some ==> slots[j]->0.addr != addr
}

/// A slot after the player in it, if any, has been told something more, and has
/// not changed otherwise.
pub open spec fn hears(
    before: Option<PlayerView>,
    after: Option<PlayerView>,
    message: MessageView,
) -> bool {
    match (before, after) {
        (Some(p), Some(q)) => q == (PlayerView { messages: p.messages.push(message), ..p }),
        (None, None) => true,
        _ => false,
    }
}

/// Everybody but the player in slot `i` has been told something more, and has not
/// changed otherwise.
pub open spec fn others_hear(
    before: Seq<Option<PlayerView>>,
    after: Seq<Option<PlayerView>>,
    i: int,
    message: MessageView,
) -> bool {
    &&& after.len() == before.len()
    &&& forall|j: int|
        #![trigger before[j]]
        #![trigger after[j]]
        0 <= j < before.len() && j != i ==> hears(before[j], after[j], message)
}

/// Everybody has been told something more, and has not changed otherwise.
pub open spec fn all_hear(
    before: Seq<Option<PlayerView>>,
    after: Seq<Option<PlayerView>>,
    message: MessageView,
) -> bool {
    others_hear(before, after, -1, message)
}

/// Everybody but the player in slot `i` is as before.
pub open spec fn others_same(
    before: Seq<Option<PlayerView>>,
    after: Seq<Option<PlayerView>>,
    i: int,
) -> bool {
    &&& after.len() == before.len()
    &&& forall|j: int|
        #![trigger before[j]]
        #![trigger after[j]]
        0 <= j < before.len() && j != i ==> after[j] == before[j]
}

/// Every object slot but `k` is as before.
pub open spec fn other_objects_same(
    before: Seq<HQMGameObject>,
    after: Seq<HQMGameObject>,
    k: int,
) -> bool {
    &&& after.len() == before.len()
    &&& forall|j: int|
        #![trigger before[j]]
        #![trigger after[j]]
        0 <= j < before.len() && j != k ==> after[j] == before[j]
}

/// Slot `i` is the first one without a player.
pub open spec fn is_first_free(slots: Seq<Option<PlayerView>>, i: int) -> bool {
    &&& 0 <= i < slots.len()
    &&& slots[i] is None
    &&& forall|j: int| 0 <= j < i ==> (#[trigger] slots[j]) is Some
}

/// Everybody has been told something, which is in the replay too, and which those
/// who join later are told if it is to be kept. Nothing else has changed.
pub open spec fn announced(
    s: ServerView,
    t: ServerView,
    message: MessageView,
    kept: bool,
) -> bool {
    &&& all_hear(s.players, t.players, message)
    &&& t == (ServerView {
        players: t.players,
        game: GameView {
            replay_messages: s.game.replay_messages.push(message),
            persistent_messages: if kept {
                s.game.persistent_messages.push(message)
            } else {
                s.game.persistent_messages
            },
            ..s.game
        },
        ..s
    })
}

/// A line that the server says.
pub open spec fn server_line(message: Seq<char>) -> MessageView {
    MessageView::Chat { player_index: None, message }
}

/// The player in slot `i` has been told something, and nobody else.
pub open spec fn told_one(s: ServerView, t: ServerView, i: int, message: MessageView) -> bool {
    &&& t == (ServerView { players: t.players, ..s })
    &&& others_same(s.players, t.players, i)
    &&& 0 <= i < s.players.len() ==> hears(s.players[i], t.players[i], message)
}

/// A player has come into slot `i`. Everybody is told so; the newcomer is told
/// all that has been kept, this included, and then the welcome lines.
#[verifier::opaque]
pub open spec fn arrives(
    s: ServerView,
    t: ServerView,
    i: usize,
    name: Seq<char>,
    addr: HQMSocketAddr,
) -> bool {
    let news = MessageView::PlayerUpdate {
        player_name: name,
        object: None,
        player_index: i,
        in_server: true,
    };
    let welcome = Seq::new(
        s.config.welcome.len(),
        |k: int| server_line(s.config.welcome[k]),
    );
    &&& others_hear(s.players, t.players, i as int, news)
    &&& t.players[i as int] == Some(
        PlayerView {
            player_name: name,
            addr,
            client_version: HQMClientVersion::Vanilla,
            game_id: u32::MAX,
            input: HQMPlayerInput {
                stick_angle: 0,
                turn: 0,
                unknown: 0,
                fwbw: 0,
                stick: (0, 0),
                head_rot: 0,
                body_rot: 0,
                keys: 0,
            },
            known_packet: u32::MAX,
            known_msgpos: 0,
            chat_rep: None,
            messages: s.game.persistent_messages.push(news) + welcome,
            inactivity: 0,
            is_admin: false,
            is_muted: HQMMuteStatus::NotMuted,
            team_switch_timer: 0,
            hand: HQMSkaterHand::Right,
            mass: 0x3f80_0000,
            deltatime: 0,
            last_ping: Seq::empty(),
            view_player_index: i,
        },
    )
    &&& t == (ServerView {
        players: t.players,
        game: GameView {
            replay_messages: s.game.replay_messages.push(news),
            persistent_messages: s.game.persistent_messages.push(news),
            ..s.game
        },
        ..s
    })
}

/// The player in slot `i` has left with their skater, and everybody else has been
/// told so. Players may join if they could before, or if the player was the last
/// administrator.
#[verifier::opaque]
pub open spec fn leaves(s: ServerView, t: ServerView, i: usize) -> bool {
    let news = MessageView::PlayerUpdate {
        player_name: s.players[i as int]->0.player_name,
        object: None,
        player_index: i,
        in_server: false,
    };
    &&& i < s.players.len()
    &&& s.players[i as int] is Some
    &&& t.players[i as int] is None
    &&& others_hear(s.players, t.players, i as int, news)
    &&& t == (ServerView {
        players: t.players,
        allow_join: t.allow_join,
        game: GameView {
            world: WorldView { objects: t.game.world.objects, ..s.game.world },
            replay_messages: s.game.replay_messages.push(news),
            persistent_messages: s.game.persistent_messages.push(news),
            ..s.game
        },
        ..s
    })
    &&& t.allow_join == (s.allow_join || s.players[i as int]->0.is_admin && forall|j: int|
        0 <= j < s.players.len() && j != i && (#[trigger] s.players[j]) is Some
            ==> !s.players[j]->0.is_admin)
    &&& skater_gone(s.game.world.objects, t.game.world.objects, i)
}

/// The skater of player `i` has been taken off the ice, and no other object.
pub open spec fn skater_gone(
    before: Seq<HQMGameObject>,
    after: Seq<HQMGameObject>,
    i: usize,
) -> bool {
    &&& after.len() == before.len()
    &&& forall|k: int|
        0 <= k < before.len() ==> #[trigger] after[k] == (if stands_at(before, i, k) {
            HQMGameObject::Empty
        } else {
            before[k]
        })
}

/// The name by which a player goes who gives a text as their name: what is left
/// of it without the white space at both ends, or else `Noname`.
pub open spec fn goes_by(text: Seq<char>, name: Seq<char>) -> bool {
    exists|a: int, b: int| #[trigger]
        is_core(text, a, b) && name == (if a == b {
            "Noname"@
        } else {
            text.subrange(a, b)
        })
}

/// There is nothing but white space before position `a` and from position `b` on,
/// and what stands between them neither starts nor ends with any.
pub open spec fn is_core(text: Seq<char>, a: int, b: int) -> bool {
    &&& 0 <= a <= b <= text.len()
    &&& forall|j: int| 0 <= j < a ==> is_white_space(#[trigger] text[j])
    &&& forall|j: int| b <= j < text.len() ==> is_white_space(#[trigger] text[j])
    &&& a < b ==> !is_white_space(text[a]) && !is_white_space(text[b - 1])
}

/// The byte at index `k`, or zero behind the end.
pub open spec fn byte_at(bytes: Seq<u8>, k: int) -> u8 {
    if 0 <= k < bytes.len() {
        bytes[k]
    } else {
        0
    }
}

/// `n` is the length of the text that starts at byte `k`: it ends before the first
/// zero byte, and has 32 bytes at most.
pub open spec fn is_name_len(bytes: Seq<u8>, k: int, n: int) -> bool {
    &&& 0 <= n <= 32
    &&& forall|j: int| 0 <= j < n ==> #[trigger] byte_at(bytes, k + j) != 0
    &&& n == 32 || byte_at(bytes, k + n) == 0
}

/// The message starts with `Hock` and a command byte.
pub open spec fn is_message(bytes: Seq<u8>, command: u8) -> bool {
    &&& byte_at(bytes, 0) == 0x48
    &&& byte_at(bytes, 1) == 0x6f
    &&& byte_at(bytes, 2) == 0x63
    &&& byte_at(bytes, 3) == 0x6b
    &&& byte_at(bytes, 4) == command
}

/// The server has taken in what the client of the player in slot `i` says, but for
/// what the chat message says. Nothing else has changed.
#[verifier::opaque]
pub open spec fn heard_from(
    s: ServerView,
    t: ServerView,
    i: int,
    u: UpdateView,
    version: HQMClientVersion,
    now: u64,
) -> bool {
    let p = s.players[i]->0;
    let q = t.players[i]->0;
    let back = s.game.packet - u.known_packet;
    let measured = p.game_id == u.game_id && p.known_packet < u.known_packet && 0 <= back
        < s.game.saved_ticks.len() && s.game.saved_ticks[back].time <= now;
    &&& 0 <= i < s.players.len()
    &&& s.players[i] is Some
    &&& t == (ServerView { players: t.players, ..s })
    &&& others_same(s.players, t.players, i)
    &&& t.players[i] == Some(
        PlayerView {
            inactivity: 0,
            client_version: version,
            known_packet: u.known_packet,
            known_msgpos: u.known_msgpos,
            input: u.input,
            game_id: u.game_id,
            deltatime: q.deltatime,
            last_ping: q.last_ping,
            chat_rep: q.chat_rep,
            ..p
        },
    )
    &&& q.deltatime == (match u.deltatime {
        Some(d) => d,
        None => p.deltatime,
    })
    &&& q.chat_rep == (match u.chat {
        Some((rep, _)) => Some(rep),
        None => p.chat_rep,
    })
    &&& !measured ==> q.last_ping == p.last_ping
    &&& measured ==> {
        &&& q.last_ping.len() == (if p.last_ping.len() < 100 {
            p.last_ping.len() + 1
        } else {
            100
        })
        &&& q.last_ping[0] == now - s.game.saved_ticks[back].time
        &&& forall|j: int| 1 <= j < q.last_ping.len() ==> #[trigger] q.last_ping[j] == p.last_ping[j - 1]
    }
}

/// The player in slot `i`, if there is one, has been told some lines by the server,
/// and nobody else has.
#[verifier::opaque]
pub open spec fn told_lines(s: ServerView, t: ServerView, i: int, lines: Seq<Seq<char>>) -> bool {
    &&& t == (ServerView { players: t.players, ..s })
    &&& others_same(s.players, t.players, i)
    &&& 0 <= i < s.players.len() ==> match (s.players[i], t.players[i]) {
        (Some(p), Some(q)) => q == (PlayerView {
            messages: p.messages + Seq::new(lines.len(), |k: int| server_line(lines[k])),
            ..p
        }),
        (None, None) => true,
        _ => false,
    }
}

/// A list names the first players whose slots are wanted, with their slots, in
/// order. It leaves nobody out but when it has `most` players already.
pub open spec fn lists_first(
    slots: Seq<Option<PlayerView>>,
    wanted: spec_fn(int) -> bool,
    most: nat,
    list: Seq<(usize, Seq<char>)>,
) -> bool {
    &&& list.len() <= most
    &&& forall|a: int|
        0 <= a < list.len() ==> {
            let (i, name) = #[trigger] list[a];
            &&& i < slots.len()
            &&& wanted(i as int)
            &&& slots[i as int] matches Some(p) && p.player_name == name
        }
    &&& forall|a: int, b: int|
        0 <= a < b < list.len() ==> (#[trigger] list[a]).0 < (#[trigger] list[b]).0
    &&& forall|i: int|
        0 <= i < slots.len() && (#[trigger] slots[i]) is Some && wanted(i) ==> {
            ||| exists|a: int| 0 <= a < list.len() && (#[trigger] list[a]).0 == i
            ||| list.len() == most && forall|a: int|
                0 <= a < list.len() ==> (#[trigger] list[a]).0 < i
        }
}

/// The line for each player of a list: the slot in decimal, a colon and the name.
pub open spec fn list_lines(list: Seq<(usize, Seq<char>)>) -> Seq<Seq<char>> {
    Seq::new(list.len(), |a: int| decimal(list[a].0 as nat) + ": "@ + list[a].1)
}

/// The lines that tell whom a search has found, with some lines before them, or
/// that it has found nobody.
pub open spec fn search_lines(before: Seq<Seq<char>>, list: Seq<(usize, Seq<char>)>) -> Seq<
    Seq<char>,
> {
    if list.len() == 0 {
        seq!["No matches found"@]
    } else {
        before + list_lines(list)
    }
}

/// A text occurs in the name of the player in slot `i`, in upper or lower case.
pub open spec fn name_has(slots: Seq<Option<PlayerView>>, text: Seq<char>, i: int) -> bool {
    &&& slots[i] is Some
    &&& exists|k: int| #[trigger]
        stands_in(lowercase(slots[i]->0.player_name), lowercase(text), k)
}

/// `part` stands in `s` from position `k` on.
pub open spec fn stands_in(s: Seq<char>, part: Seq<char>, k: int) -> bool {
    &&& 0 <= k
    &&& k + part.len() <= s.len()
    &&& forall|j: int| 0 <= j < part.len() ==> s[k + j] == #[trigger] part[j]
}

/// Only the slot `i` is wanted of those that are taken.
pub open spec fn only_one(
    slots: Seq<Option<PlayerView>>,
    wanted: spec_fn(int) -> bool,
    i: int,
) -> bool {
    &&& 0 <= i < slots.len()
    &&& slots[i] is Some
    &&& wanted(i)
    &&& forall|j: int|
        0 <= j < slots.len() && (#[trigger] slots[j]) is Some && wanted(j) ==> j == i
}

/// Everybody has been told some messages, one after the other, which are in the
/// replay too, and which those who join later are told if they are to be kept.
/// Nothing else has changed.
#[verifier::opaque]
pub open spec fn announced_all(
    s: ServerView,
    t: ServerView,
    messages: Seq<MessageView>,
    kept: bool,
) -> bool {
    &&& t.players.len() == s.players.len()
    &&& forall|j: int|
        #![trigger s.players[j]]
        #![trigger t.players[j]]
        0 <= j < s.players.len() ==> match (s.players[j], t.players[j]) {
            (Some(p), Some(q)) => q == (PlayerView { messages: p.messages + messages, ..p }),
            (None, None) => true,
            _ => false,
        }
    &&& t == (ServerView {
        players: t.players,
        game: GameView {
            replay_messages: s.game.replay_messages + messages,
            persistent_messages: if kept {
                s.game.persistent_messages + messages
            } else {
                s.game.persistent_messages
            },
            ..s.game
        },
        ..s
    })
}

/// The news that the players of a list are in the server and not on the ice.
pub open spec fn all_news(list: Seq<(usize, Seq<char>)>) -> Seq<MessageView> {
    Seq::new(
        list.len(),
        |a: int|
            MessageView::PlayerUpdate {
                player_name: list[a].1,
                object: None,
                player_index: list[a].0,
                in_server: true,
            },
    )
}

/// One step later nobody has been heard of, and the game has been played.
#[verifier::opaque]
pub open spec fn step_later(s: ServerView, t: ServerView) -> bool {
    &&& t == (ServerView {
        players: t.players,
        game: GameView { active: true, ..s.game },
        ..s
    })
    &&& t.players.len() == s.players.len()
    &&& forall|j: int|
        #![trigger s.players[j]]
        #![trigger t.players[j]]
        0 <= j < s.players.len() ==> match (s.players[j], t.players[j]) {
            (Some(p), Some(q)) => q == (PlayerView { inactivity: q.inactivity, ..p })
                && q.inactivity == p.inactivity + 1,
            (None, None) => true,
            _ => false,
        }
}

/// Handing out the input has changed nothing but the skaters that stand for
/// connected players: each has the input of its player.
#[verifier::opaque]
pub open spec fn inputs_handed_out(s: ServerView, t: ServerView) -> bool {
    let before = s.game.world.objects;
    let after = t.game.world.objects;
    &&& t == (ServerView {
        game: GameView { world: WorldView { objects: after, ..s.game.world }, ..s.game },
        ..s
    })
    &&& after.len() == before.len()
    &&& forall|k: int, i: usize|
        #![trigger stands_at(before, i, k)]
        stands_at(before, i, k) && i < s.players.len() && s.players[i as int] is Some ==> after[k]
            == HQMGameObject::Player(
            HQMSkater { input: s.players[i as int]->0.input, ..before[k]->Player_0 },
        )
    &&& forall|k: int|
        0 <= k < before.len() && (forall|i: usize| #[trigger]
            stands_at(before, i, k) ==> i >= s.players.len() || s.players[i as int] is None)
            ==> #[trigger] after[k] == before[k]
}

/// How an object is sent.
pub open spec fn sent_as(object: HQMGameObject) -> HQMObjectPacket {
    match object {
        HQMGameObject::Empty => HQMObjectPacket::Empty,
        HQMGameObject::Puck(puck) => HQMObjectPacket::Puck(puck.packet),
        HQMGameObject::Player(skater) => HQMObjectPacket::Skater(skater.packet),
    }
}

/// The step is counted and remembered as the latest, with the 32 objects as they
/// are sent. Of the steps before, as many are remembered as there is room for.
#[verifier::opaque]
pub open spec fn step_saved(s: ServerView, t: ServerView, now: u64, capacity: usize) -> bool {
    let before = s.game.saved_ticks;
    let after = t.game.saved_ticks;
    let room = if capacity == 0 {
        1
    } else {
        capacity as int
    };
    &&& t == (ServerView {
        game: GameView {
            saved_ticks: after,
            packet: t.game.packet,
            game_step: t.game.game_step,
            ..s.game
        },
        ..s
    })
    &&& t.game.packet == (s.game.packet + 1) % 0x1_0000_0000
    &&& t.game.game_step == (s.game.game_step + 1) % 0x1_0000_0000
    &&& after.len() == (if before.len() < room {
        before.len() as int + 1
    } else {
        room
    })
    &&& after[0].time == now
    &&& after[0].packets.len() == 32
    &&& forall|k: int|
        0 <= k < 32 ==> #[trigger] after[0].packets[k] == sent_as(s.game.world.objects[k])
    &&& forall|d: int| 1 <= d < after.len() ==> #[trigger] after[d] == before[d - 1]
}

} // verus!
