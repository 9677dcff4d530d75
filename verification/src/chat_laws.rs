//! What becomes of what a client says: it is taken in whole, and once.
use crate::answers::{answered, lemma_commands_answer};
use crate::behaviour::HQMServerBehaviour;
use crate::bits::{bytes_bits, pack, put_bytes, stream_value};
use crate::commands::RequestView;
use crate::hqm_game::MessageView;
use crate::join_laws::{law_address_is_found, law_everybody_hears, lemma_header};
use crate::laws::law_bytes_read_back;
use crate::players::{
    slot_of_addr, HQMClientVersion, HQMMuteStatus, HQMSocketAddr, PlayerView,
};
use crate::readback::{law_client_update_read_back, put_client_update, update_fits};
use crate::search::lemma_first_from;
use crate::server::ServerView;
use crate::session::{
    command_done, message_done, message_handled, new_chat, parsed_update, reaction_of, update_done,
    ReactionView, UpdateView,
};
use crate::terms::{announced, byte_at, heard_from, is_message, sends_from, told_one};
use crate::text::{argument_of, command_of, first_space};
use vstd::prelude::*;
use vstd::utf8::{decode_utf8, valid_utf8};

verus! {

/// The number of the latest chat message of player `i`.
pub open spec fn chat_number(s: ServerView, i: usize) -> Option<u8> {
    match s.player(i) {
        Some(player) => player.chat_rep,
        None => None,
    }
}

/// An update with a chat message whose number is the one that the server has
/// noted is taken in, but for the chat: nobody is told anything, no command is
/// carried out, and the rules of play are not asked.
pub proof fn law_repeated_chat_is_not_processed<B: HQMServerBehaviour>(
    b0: B,
    s0: ServerView,
    addr: HQMSocketAddr,
    u: UpdateView,
    version: HQMClientVersion,
    now: u64,
    b1: B,
    s1: ServerView,
    request: Option<RequestView>,
    i: usize,
    j: usize,
)
    requires
        s0.players.len() <= usize::MAX,
        slot_of_addr(s0.players, addr) == Some(i),
        u.chat matches Some((rep, _)) && chat_number(s0, i) == Some(rep),
        update_done(b0, s0, addr, u, version, now, b1, s1, request),
    ensures
        b1 == b0,
        request is None,
        s1 == s0.after_update(i, u, version, now),
        s1.game == s0.game,
        chat_number(s1, i) == chat_number(s0, i),
        s1.player(j) is Some <==> s0.player(j) is Some,
        s1.player(j) is Some ==> s1.player(j)->0.messages == s0.player(j)->0.messages,
{
    reveal(update_done);
    lemma_first_from(s0.players, |p: Option<PlayerView>| p is Some && p->0.addr == addr, 0);
}

/// The rules of play leave the number of the latest chat message of a player
/// alone when they handle a command of that player.
pub open spec fn keeps_chat_numbers<B: HQMServerBehaviour>() -> bool {
    forall|
        b0: B,
        s0: ServerView,
        command: Seq<char>,
        arg: Seq<char>,
        i: usize,
        b1: B,
        s1: ServerView,
    | #[trigger]
        B::command_handled(b0, s0, command, arg, i, b1, s1) && s0.player(i) is Some && s1.player(
            i,
        ) is Some ==> chat_number(s1, i) == chat_number(s0, i)
}

/// The second of two updates in a row of a player, with the same number of the
/// chat message, is taken in but for the chat, whatever the message says, if the
/// rules of play leave that number alone.
pub proof fn law_chat_is_processed_once<B: HQMServerBehaviour>(
    b0: B,
    s0: ServerView,
    addr: HQMSocketAddr,
    u1: UpdateView,
    version1: HQMClientVersion,
    now1: u64,
    b1: B,
    s1: ServerView,
    request1: Option<RequestView>,
    u2: UpdateView,
    version2: HQMClientVersion,
    now2: u64,
    b2: B,
    s2: ServerView,
    request2: Option<RequestView>,
    i: usize,
    j: usize,
)
    requires
        keeps_chat_numbers::<B>(),
        s0.players.len() <= usize::MAX,
        s1.players.len() <= usize::MAX,
        slot_of_addr(s0.players, addr) == Some(i),
        slot_of_addr(s1.players, addr) == Some(i),
        u1.chat is Some,
        u2.chat matches Some((rep2, _)) && u1.chat matches Some((rep1, _)) && rep2 == rep1,
        update_done(b0, s0, addr, u1, version1, now1, b1, s1, request1),
        update_done(b1, s1, addr, u2, version2, now2, b2, s2, request2),
    ensures
        b2 == b1,
        request2 is None,
        s2 == s1.after_update(i, u2, version2, now2),
        s2.game == s1.game,
        u1.chat matches Some((rep, _)) && chat_number(s2, i) == Some(rep),
        s2.player(j) is Some <==> s1.player(j) is Some,
        s2.player(j) is Some ==> s2.player(j)->0.messages == s1.player(j)->0.messages,
{
    reveal(update_done);
    lemma_first_from(s0.players, |p: Option<PlayerView>| p is Some && p->0.addr == addr, 0);
    lemma_first_from(s1.players, |p: Option<PlayerView>| p is Some && p->0.addr == addr, 0);
    let s = s0.after_update(i, u1, version1, now1);
    if let Some((_, message)) = new_chat(s0.player(i)->0, u1) {
        lemma_message_chat_number(b0, s, message, i, b1, s1, request1);
    }
    law_repeated_chat_is_not_processed(
        b1,
        s1,
        addr,
        u2,
        version2,
        now2,
        b2,
        s2,
        request2,
        i,
        j,
    );
}

proof fn lemma_message_chat_number<B: HQMServerBehaviour>(
    b0: B,
    s0: ServerView,
    bytes: Seq<u8>,
    i: usize,
    b1: B,
    s1: ServerView,
    request: Option<RequestView>,
)
    requires
        keeps_chat_numbers::<B>(),
        s0.player(i) is Some,
        s1.player(i) is Some,
        message_done(b0, s0, bytes, i, b1, s1, request),
    ensures
        chat_number(s1, i) == chat_number(s0, i),
{
    reveal(message_done);
    reveal(command_done);
    let line = decode_utf8(bytes);
    reveal(answered);
    lemma_commands_answer(s0, command_of(line), argument_of(line), i);
    assert(chat_number(s0.after_chat(i, line), i) == chat_number(s0, i)) by {
        reveal(ServerView::broadcast);
        reveal(ServerView::directed);
    }
}

/// An update of a connected client is taken in. If it has a chat message with
/// another number than the one before, that message is processed as the client
/// wrote it, byte for byte; otherwise nothing more happens.
pub proof fn law_update_is_taken_in<B: HQMServerBehaviour>(
    b0: B,
    s0: ServerView,
    addr: HQMSocketAddr,
    u: UpdateView,
    version: HQMClientVersion,
    now: u64,
    b1: B,
    s1: ServerView,
    request: Option<RequestView>,
    i: usize,
)
    requires
        s0.players.len() <= usize::MAX,
        sends_from(s0.players, i as int, addr),
        update_done(b0, s0, addr, u, version, now, b1, s1, request),
    ensures
        exists|t: ServerView| #[trigger]
            heard_from(s0, t, i as int, u, version, now) && (match u.chat {
                Some((rep, message)) if s0.players[i as int]->0.chat_rep != Some(
                    rep,
                ) => message_done(b0, t, message, i, b1, s1, request),
                _ => b1 == b0 && s1 == t && request is None,
            }),
{
    reveal(heard_from);
    reveal(update_done);
    law_address_is_found(s0.players, addr, i);
    let t = s0.after_update(i, u, version, now);
    assert(heard_from(s0, t, i as int, u, version, now));
}

/// What a player says in the chat is heard whole by everybody, and is in the
/// replay, but those who join later do not hear it. What a shadow-muted player
/// says only they see. What a muted player says, and what anybody says while the
/// chat is muted, nobody hears.
pub proof fn law_chat_line_is_said<B: HQMServerBehaviour>(
    b0: B,
    s0: ServerView,
    bytes: Seq<u8>,
    i: usize,
    b1: B,
    s1: ServerView,
    request: Option<RequestView>,
)
    requires
        message_done(b0, s0, bytes, i, b1, s1, request),
        i < s0.players.len(),
        s0.players[i as int] is Some,
        valid_utf8(bytes),
        decode_utf8(bytes).len() == 0 || decode_utf8(bytes)[0] != '/',
    ensures
        b1 == b0,
        request is None,
        ({
            let said = MessageView::Chat { player_index: Some(i), message: decode_utf8(bytes) };
            let status = s0.players[i as int]->0.is_muted;
            if s0.is_muted || status == HQMMuteStatus::Muted {
                s1 == s0
            } else if status == HQMMuteStatus::ShadowMuted {
                told_one(s0, s1, i as int, said)
            } else {
                announced(s0, s1, said, false)
            }
        }),
{
    reveal(message_done);
    reveal(ServerView::directed);
    law_everybody_hears(
        s0,
        MessageView::Chat { player_index: Some(i), message: decode_utf8(bytes) },
        false,
    );
}

/// A chat message that is not valid UTF-8 is not heard, and neither is one of a
/// player who is not there.
pub proof fn law_garbled_chat_is_not_heard<B: HQMServerBehaviour>(
    b0: B,
    s0: ServerView,
    bytes: Seq<u8>,
    i: usize,
    b1: B,
    s1: ServerView,
    request: Option<RequestView>,
)
    requires
        message_done(b0, s0, bytes, i, b1, s1, request),
        !valid_utf8(bytes) || i >= s0.players.len() || s0.players[i as int] is None,
    ensures
        b1 == b0,
        s1 == s0,
        request is None,
{
    reveal(message_done);
}

proof fn lemma_first_space(s: Seq<char>, k: int, n: int)
    requires
        0 <= k <= n <= s.len(),
        forall|j: int| k <= j < n ==> #[trigger] s[j] != ' ',
        n == s.len() || s[n] == ' ',
    ensures
        first_space(s, k) == n,
    decreases n - k,
{
    if k < n {
        assert(s[k] != ' ');
        lemma_first_space(s, k + 1, n);
    }
}

/// A line that starts with a slash is a command: the word behind the slash, up to
/// the first space, with all that stands behind that space as its argument.
pub proof fn law_command_line_is_carried_out<B: HQMServerBehaviour>(
    b0: B,
    s0: ServerView,
    bytes: Seq<u8>,
    i: usize,
    b1: B,
    s1: ServerView,
    request: Option<RequestView>,
    command: Seq<char>,
    arg: Seq<char>,
)
    requires
        message_done(b0, s0, bytes, i, b1, s1, request),
        i < s0.players.len(),
        s0.players[i as int] is Some,
        valid_utf8(bytes),
        forall|j: int| 0 <= j < command.len() ==> #[trigger] command[j] != ' ',
        decode_utf8(bytes) == seq!['/'] + command + seq![' '] + arg || decode_utf8(bytes) == seq![
            '/',
        ] + command && arg.len() == 0,
    ensures
        command_done(b0, s0, command, arg, i, b1, s1, request),
{
    reveal(message_done);
    let line = decode_utf8(bytes);
    let n = 1 + command.len() as int;
    assert forall|j: int| 0 <= j < n implies #[trigger] line[j] != ' ' by {
        if j > 0 {
            assert(line[j] == command[j - 1]);
        }
    }
    lemma_first_space(line, 0, n);
    assert(command_of(line) =~= command);
    assert(argument_of(line) =~= arg);
}

/// What a connected player who is not muted says for the first time, if it is no
/// command, everybody hears as it was sent, from the first byte to the last.
pub proof fn law_chat_reaches_everybody<B: HQMServerBehaviour>(
    b0: B,
    s0: ServerView,
    addr: HQMSocketAddr,
    u: UpdateView,
    version: HQMClientVersion,
    now: u64,
    b1: B,
    s1: ServerView,
    request: Option<RequestView>,
    i: usize,
    j: int,
)
    requires
        s0.players.len() <= usize::MAX,
        sends_from(s0.players, i as int, addr),
        update_done(b0, s0, addr, u, version, now, b1, s1, request),
        !s0.is_muted,
        s0.players[i as int]->0.is_muted == HQMMuteStatus::NotMuted,
        u.chat matches Some((rep, message)) && {
            &&& s0.players[i as int]->0.chat_rep != Some(rep)
            &&& valid_utf8(message)
            &&& decode_utf8(message).len() == 0 || decode_utf8(message)[0] != '/'
        },
        0 <= j < s0.players.len(),
        s0.players[j] is Some,
    ensures
        s1.players.len() == s0.players.len(),
        s1.players[j] is Some,
        s1.players[j]->0.messages == s0.players[j]->0.messages.push(
            MessageView::Chat { player_index: Some(i), message: decode_utf8((u.chat->0).1) },
        ),
{
    reveal(heard_from);
    law_update_is_taken_in(b0, s0, addr, u, version, now, b1, s1, request, i);
    let message = (u.chat->0).1;
    let t = choose|t: ServerView| #[trigger]
        heard_from(s0, t, i as int, u, version, now) && message_done(
            b0,
            t,
            message,
            i,
            b1,
            s1,
            request,
        );
    law_chat_line_is_said(b0, t, message, i, b1, s1, request);
    assert(t.players[j] is Some);
}

/// Each part of an update stands at its place, where the update starts at byte `k`:
/// eleven words, or ten for a client that does not measure its ping, then sixteen
/// bits, and then the chat message if the next bit is set. Its number has three
/// bits and its length eight, and its text starts at the next byte.
pub proof fn law_update_is_read(bytes: Seq<u8>, k: nat, version: HQMClientVersion)
    ensures
        ({
            let u = parsed_update(bytes, 8 * k, version);
            let word = |n: nat| stream_value(bytes, 8 * k + 32 * n, 32) as u32;
            let pings = version != HQMClientVersion::Vanilla;
            let n: nat = if pings {
                11
            } else {
                10
            };
            let p = 8 * k + 32 * n + 48;
            &&& u.game_id == word(0)
            &&& u.input.stick_angle == word(1)
            &&& u.input.turn == word(2)
            &&& u.input.unknown == word(3)
            &&& u.input.fwbw == word(4)
            &&& u.input.stick == (word(5), word(6))
            &&& u.input.head_rot == word(7)
            &&& u.input.body_rot == word(8)
            &&& u.input.keys == word(9)
            &&& u.deltatime == (if pings {
                Some(word(10))
            } else {
                None
            })
            &&& u.known_packet == word(n)
            &&& u.known_msgpos == stream_value(bytes, 8 * k + 32 * n + 32, 16) as usize
            &&& u.chat is Some <==> stream_value(bytes, p, 1) == 1
            &&& u.chat matches Some((rep, message)) ==> {
                &&& rep == stream_value(bytes, p + 1, 3) as u8
                &&& message.len() == stream_value(bytes, p + 4, 8)
                &&& forall|j: int|
                    0 <= j < message.len() ==> #[trigger] message[j] == byte_at(
                        bytes,
                        k + 4 * n + 8 + j,
                    )
            }
        }),
{
}

/// A message with the command byte of a version is taken for an update of a client
/// of that version.
pub proof fn law_update_message_is_handled<B: HQMServerBehaviour>(
    b0: B,
    s0: ServerView,
    addr: HQMSocketAddr,
    msg: Seq<u8>,
    version: HQMClientVersion,
    now: u64,
    b1: B,
    s1: ServerView,
    reaction: ReactionView,
)
    requires
        is_message(msg, update_command(version)),
        message_handled(b0, s0, addr, msg, now, b1, s1, reaction),
    ensures
        exists|request: Option<RequestView>| #[trigger]
            update_done(
                b0,
                s0,
                addr,
                parsed_update(msg, 40, version),
                version,
                now,
                b1,
                s1,
                request,
            ) && (match request {
                Some(r) => reaction == ReactionView::Request(r),
                None => reaction is Nothing,
            }),
{
    lemma_header(msg);
    let request = choose|request: Option<RequestView>| #[trigger]
        reaction_of(request) == reaction && update_done(
            b0,
            s0,
            addr,
            parsed_update(msg, 40, version),
            version,
            now,
            b1,
            s1,
            request,
        );
    assert(update_done(
        b0,
        s0,
        addr,
        parsed_update(msg, 40, version),
        version,
        now,
        b1,
        s1,
        request,
    ));
}

/// The command byte with which clients of a version send their updates.
pub open spec fn update_command(version: HQMClientVersion) -> u8 {
    match version {
        HQMClientVersion::Vanilla => 4,
        HQMClientVersion::Ping => 8,
        HQMClientVersion::PingRules => 16,
    }
}

/// The message in which a client of a version sends an update.
pub open spec fn update_message(u: UpdateView, version: HQMClientVersion) -> Seq<u8> {
    pack(
        put_client_update(
            bytes_bits(seq![0x48u8, 0x6f, 0x63, 0x6b, update_command(version)]),
            u,
        ),
    )
}

/// The server knows the message for an update, and reads the update from it.
proof fn lemma_update_message(u: UpdateView, version: HQMClientVersion)
    requires
        update_fits(u, version),
    ensures
        is_message(update_message(u, version), update_command(version)),
        parsed_update(update_message(u, version), 40, version) == u,
{
    let msg = update_message(u, version);
    let head = seq![0x48u8, 0x6f, 0x63, 0x6b, update_command(version)];
    let s = bytes_bits(head);
    let all = put_client_update(s, u);
    let none = Seq::<bool>::empty();
    law_client_update_read_back(s, u, version, none);
    assert(all + none =~= all);
    let rest = all.skip(40);
    assert(put_bytes(none, head) =~= s);
    assert(s + rest =~= all) by {
        assert(all.take(40) == s);
    }
    assert(s.len() == 40);
    assert forall|k: int| 0 <= k < 5 implies byte_at(msg, k) == #[trigger] head[k] by {
        law_bytes_read_back(none, head, rest, k);
    }
    assert(head[0] == 0x48 && head[1] == 0x6f && head[2] == 0x63 && head[3] == 0x6b && head[4]
        == update_command(version));
}

/// What a client writes into an update is what the server takes in.
pub proof fn law_sent_update_is_taken_in<B: HQMServerBehaviour>(
    b0: B,
    s0: ServerView,
    addr: HQMSocketAddr,
    u: UpdateView,
    version: HQMClientVersion,
    now: u64,
    b1: B,
    s1: ServerView,
    reaction: ReactionView,
)
    requires
        update_fits(u, version),
        message_handled(b0, s0, addr, update_message(u, version), now, b1, s1, reaction),
    ensures
        exists|request: Option<RequestView>| #[trigger]
            update_done(b0, s0, addr, u, version, now, b1, s1, request) && (match request {
                Some(r) => reaction == ReactionView::Request(r),
                None => reaction is Nothing,
            }),
{
    let msg = update_message(u, version);
    lemma_update_message(u, version);
    law_update_message_is_handled(b0, s0, addr, msg, version, now, b1, s1, reaction);
}

} // verus!
