//! The players that are connected to the server.
use crate::hqm_game::{
    messages_view, share, HQMMessage, HQMPlayerInput, HQMSkaterHand, MessageView,
};
use crate::search::first_from;
use std::collections::VecDeque;
use std::rc::Rc;
use vstd::prelude::*;

verus! {

/// An IP address.
#[derive(Copy, Clone, PartialEq, Eq, Structural, Debug)]
pub enum HQMIpAddr {
    V4(u32),
    V6(u128),
}

/// The address that a client sends from. The last two fields are zero for IPv4.
#[derive(Copy, Clone, PartialEq, Eq, Structural, Debug)]
pub struct HQMSocketAddr {
    pub ip: HQMIpAddr,
    pub port: u16,
    pub flowinfo: u32,
    pub scope_id: u32,
}

/// What a client is able to understand.
#[derive(Copy, Clone, PartialEq, Eq, Structural, Debug)]
pub enum HQMClientVersion {
    Vanilla,
    Ping,
    PingRules,
}

impl HQMClientVersion {
    /// The client measures its ping.
    pub open spec fn pings(self) -> bool {
        self != HQMClientVersion::Vanilla
    }

    /// The client shows offside and icing.
    pub open spec fn shows_rules(self) -> bool {
        self == HQMClientVersion::PingRules
    }

    /// Whether the client measures its ping.
    pub fn has_ping(self) -> (r: bool)
        ensures
            r == self.pings(),
    {
        match self {
            HQMClientVersion::Vanilla => false,
            HQMClientVersion::Ping => true,
            HQMClientVersion::PingRules => true,
        }
    }

    /// Whether the client shows offside and icing.
    pub fn has_rules(self) -> (r: bool)
        ensures
            r == self.shows_rules(),
    {
        match self {
            HQMClientVersion::Vanilla => false,
            HQMClientVersion::Ping => false,
            HQMClientVersion::PingRules => true,
        }
    }
}

#[derive(Copy, Clone, PartialEq, Eq, Structural, Debug)]
pub enum HQMMuteStatus {
    NotMuted,
    ShadowMuted,
    Muted,
}

/// A connected player.
pub struct HQMConnectedPlayer {
    pub player_name: String,
    pub addr: HQMSocketAddr,
    pub client_version: HQMClientVersion,
    /// The game that the client says it is in.
    pub game_id: u32,
    pub input: HQMPlayerInput,
    /// The latest simulation step that the client says it has received.
    pub known_packet: u32,
    /// How many of its messages the client says it has received.
    pub known_msgpos: usize,
    /// The number of the client's latest chat message.
    pub chat_rep: Option<u8>,
    pub messages: Vec<Rc<HQMMessage>>,
    /// Simulation steps since the client was last heard of.
    pub inactivity: u32,
    pub is_admin: bool,
    pub is_muted: HQMMuteStatus,
    pub team_switch_timer: u32,
    pub hand: HQMSkaterHand,
    /// Bit pattern of the mass of the player's skater.
    pub mass: u32,
    /// What the client sent for its own ping measurement, to be sent back.
    pub deltatime: u32,
    /// The latest round-trip times in nanoseconds, the latest first.
    pub last_ping: VecDeque<u64>,
    /// The player whose view is shown.
    pub view_player_index: usize,
}

/// The contents of an [`HQMConnectedPlayer`].
pub struct PlayerView {
    pub player_name: Seq<char>,
    pub addr: HQMSocketAddr,
    pub client_version: HQMClientVersion,
    pub game_id: u32,
    pub input: HQMPlayerInput,
    pub known_packet: u32,
    pub known_msgpos: usize,
    pub chat_rep: Option<u8>,
    pub messages: Seq<MessageView>,
    pub inactivity: u32,
    pub is_admin: bool,
    pub is_muted: HQMMuteStatus,
    pub team_switch_timer: u32,
    pub hand: HQMSkaterHand,
    pub mass: u32,
    pub deltatime: u32,
    pub last_ping: Seq<u64>,
    pub view_player_index: usize,
}

/// Bit pattern of the number one.
pub const UNIT_MASS: u32 = 0x3f80_0000;

impl PlayerView {
    /// A player who has just joined.
    pub open spec fn joined(
        player_index: usize,
        player_name: Seq<char>,
        addr: HQMSocketAddr,
        messages: Seq<MessageView>,
    ) -> Self {
        PlayerView {
            player_name,
            addr,
            client_version: HQMClientVersion::Vanilla,
            game_id: u32::MAX,
            input: HQMPlayerInput::neutral(),
            known_packet: u32::MAX,
            known_msgpos: 0,
            chat_rep: None,
            messages,
            inactivity: 0,
            is_admin: false,
            is_muted: HQMMuteStatus::NotMuted,
            team_switch_timer: 0,
            hand: HQMSkaterHand::Right,
            mass: UNIT_MASS,
            deltatime: 0,
            last_ping: Seq::empty(),
            view_player_index: player_index,
        }
    }

    /// The player with one more message to be sent.
    pub open spec fn told(self, message: MessageView) -> Self {
        PlayerView { messages: self.messages.push(message), ..self }
    }
}

impl View for HQMConnectedPlayer {
    type V = PlayerView;

    open spec fn view(&self) -> PlayerView {
        PlayerView {
            player_name: self.player_name@,
            addr: self.addr,
            client_version: self.client_version,
            game_id: self.game_id,
            input: self.input,
            known_packet: self.known_packet,
            known_msgpos: self.known_msgpos,
            chat_rep: self.chat_rep,
            messages: messages_view(self.messages@),
            inactivity: self.inactivity,
            is_admin: self.is_admin,
            is_muted: self.is_muted,
            team_switch_timer: self.team_switch_timer,
            hand: self.hand,
            mass: self.mass,
            deltatime: self.deltatime,
            last_ping: self.last_ping@,
            view_player_index: self.view_player_index,
        }
    }
}

impl HQMConnectedPlayer {
    /// A player who has just joined.
    pub fn new(
        player_index: usize,
        player_name: String,
        addr: HQMSocketAddr,
        global_messages: Vec<Rc<HQMMessage>>,
    ) -> (p: Self)
        ensures
            p@ == PlayerView::joined(
                player_index,
                player_name@,
                addr,
                messages_view(global_messages@),
            ),
    {
        HQMConnectedPlayer {
            player_name,
            addr,
            client_version: HQMClientVersion::Vanilla,
            game_id: u32::MAX,
            known_packet: u32::MAX,
            known_msgpos: 0,
            chat_rep: None,
            messages: global_messages,
            input: HQMPlayerInput::default(),
            inactivity: 0,
            is_admin: false,
            is_muted: HQMMuteStatus::NotMuted,
            hand: HQMSkaterHand::Right,
            team_switch_timer: 0,
            deltatime: 0,
            last_ping: VecDeque::new(),
            view_player_index: player_index,
            mass: UNIT_MASS,
        }
    }

    /// Adds a message to those that are to be sent to the player.
    pub(crate) fn push_message(&mut self, message: Rc<HQMMessage>)
        ensures
            final(self)@ == old(self)@.told((*message)@),
    {
        self.messages.push(message);
        proof {
            assert(messages_view(self.messages@) =~= messages_view(old(self).messages@).push(
                (*message)@,
            ));
        }
    }

    /// Adds a chat message that only this player sees.
    pub fn add_directed_user_chat_message2(&mut self, message: &str, sender_index: Option<usize>)
        ensures
            final(self)@ == old(self)@.told(
                MessageView::Chat { player_index: sender_index, message: message@ },
            ),
    {
        let chat = HQMMessage::Chat { player_index: sender_index, message: message.to_owned() };
        self.push_message(Rc::new(chat));
    }

    /// Adds a chat message from a player that only this player sees.
    pub fn add_directed_user_chat_message(&mut self, message: &str, sender_index: usize)
        ensures
            final(self)@ == old(self)@.told(
                MessageView::Chat { player_index: Some(sender_index), message: message@ },
            ),
    {
        self.add_directed_user_chat_message2(message, Some(sender_index));
    }

    /// Adds a chat message from the server that only this player sees.
    pub fn add_directed_server_chat_message(&mut self, message: &str)
        ensures
            final(self)@ == old(self)@.told(
                MessageView::Chat { player_index: None, message: message@ },
            ),
    {
        self.add_directed_user_chat_message2(message, None);
    }
}

/// The contents of a player slot.
pub open spec fn slot_view(slot: Option<HQMConnectedPlayer>) -> Option<PlayerView> {
    match slot {
        Some(player) => Some(player@),
        None => None,
    }
}

/// The contents of a list of player slots.
pub open spec fn slots_view(slots: Seq<Option<HQMConnectedPlayer>>) -> Seq<Option<PlayerView>> {
    slots.map_values(|slot: Option<HQMConnectedPlayer>| slot_view(slot))
}

/// The player in slot `i`, if there is such a slot and it is taken.
pub open spec fn player_at(slots: Seq<Option<PlayerView>>, i: int) -> Option<PlayerView> {
    if 0 <= i < slots.len() {
        slots[i]
    } else {
        None
    }
}

/// A player slot after the player in it, if any, has been given a message.
pub open spec fn told_slot(slot: Option<PlayerView>, message: MessageView) -> Option<PlayerView> {
    match slot {
        Some(player) => Some(player.told(message)),
        None => None,
    }
}

/// All player slots after everybody has been given a message.
pub open spec fn told_all(slots: Seq<Option<PlayerView>>, message: MessageView) -> Seq<
    Option<PlayerView>,
> {
    Seq::new(slots.len(), |i: int| told_slot(slots[i], message))
}

/// The client of a player, if it is in game `game_id`, has not claimed to know
/// messages that it was never sent.
pub open spec fn msgpos_valid(game_id: u32, player: PlayerView) -> bool {
    player.game_id == game_id ==> player.known_msgpos <= player.messages.len()
}

/// The number of slots that are taken.
pub open spec fn count_players(slots: Seq<Option<PlayerView>>) -> nat
    decreases slots.len(),
{
    if slots.len() == 0 {
        0
    } else {
        count_players(slots.drop_last()) + (if slots.last() is Some {
            1nat
        } else {
            0
        })
    }
}

/// The slot of the player who sends from `addr`.
pub open spec fn slot_of_addr(slots: Seq<Option<PlayerView>>, addr: HQMSocketAddr) -> Option<
    usize,
> {
    first_from(slots, |p: Option<PlayerView>| p is Some && p->0.addr == addr, 0)
}

/// The slot that the next player gets.
pub open spec fn empty_slot(slots: Seq<Option<PlayerView>>) -> Option<usize> {
    first_from(slots, |p: Option<PlayerView>| p is None, 0)
}

/// References to the players in some slots.
fn players_mut(slots: &mut [Option<HQMConnectedPlayer>]) -> (v: Vec<
    Option<&mut HQMConnectedPlayer>,
>)
    ensures
        v@.len() == old(slots)@.len(),
        final(slots)@.len() == old(slots)@.len(),
        forall|i: int|
            0 <= i < v@.len() ==> match #[trigger] v@[i] {
                Some(p) => old(slots)@[i] == Some(*p) && final(slots)@[i] == Some(*final(p)),
                None => old(slots)@[i] is None && final(slots)@[i] is None,
            },
    decreases old(slots)@.len(),
{
    let n: usize = slots.len();
    if n == 0 {
        return Vec::new();
    }
    let (init, rest) = slots.split_at_mut(n - 1);
    let mut v = players_mut(init);
    match &mut rest[0] {
        Some(p) => {
            v.push(Some(p));
        },
        None => {
            v.push(None);
        },
    }
    v
}

/// The player slots.
pub struct HQMServerPlayerList {
    pub players: Vec<Option<HQMConnectedPlayer>>,
}

impl View for HQMServerPlayerList {
    type V = Seq<Option<PlayerView>>;

    open spec fn view(&self) -> Seq<Option<PlayerView>> {
        slots_view(self.players@)
    }
}

impl HQMServerPlayerList {
    /// `slots` empty slots.
    pub fn new(slots: usize) -> (list: Self)
        ensures
            list@ =~= Seq::new(slots as nat, |i: int| None::<PlayerView>),
    {
        let mut players: Vec<Option<HQMConnectedPlayer>> = Vec::with_capacity(slots);
        let mut i: usize = 0;
        while i < slots
            invariant
                i <= slots,
                players@.len() == i,
                forall|j: int| 0 <= j < i ==> #[trigger] players@[j] is None,
            decreases slots - i,
        {
            players.push(None);
            i = i + 1;
        }
        HQMServerPlayerList { players }
    }

    /// The number of slots.
    pub fn len(&self) -> (n: usize)
        ensures
            n == self@.len(),
    {
        self.players.len()
    }

    /// The slots in order.
    pub fn iter(&self) -> (v: Vec<Option<&HQMConnectedPlayer>>)
        ensures
            v@.len() == self@.len(),
            forall|i: int|
                0 <= i < v@.len() ==> match #[trigger] v@[i] {
                    Some(p) => self@[i] == Some(p@),
                    None => self@[i] is None,
                },
    {
        let mut v: Vec<Option<&HQMConnectedPlayer>> = Vec::new();
        let mut i: usize = 0;
        while i < self.players.len()
            invariant
                i <= self.players@.len(),
                v@.len() == i,
                forall|j: int|
                    0 <= j < v@.len() ==> match #[trigger] v@[j] {
                        Some(p) => self@[j] == Some(p@),
                        None => self@[j] is None,
                    },
            decreases self.players@.len() - i,
        {
            v.push(self.players[i].as_ref());
            i = i + 1;
        }
        v
    }

    /// The slots in order, to be changed.
    pub fn iter_mut(&mut self) -> (v: Vec<Option<&mut HQMConnectedPlayer>>)
        ensures
            v@.len() == old(self)@.len(),
            final(self)@.len() == old(self)@.len(),
            forall|i: int|
                0 <= i < v@.len() ==> match #[trigger] v@[i] {
                    Some(p) => {
                        &&& old(self)@[i] == Some((*p)@)
                        &&& final(self)@[i] == Some((*final(p))@)
                    },
                    None => old(self)@[i] is None && final(self)@[i] is None,
                },
    {
        players_mut(self.players.as_mut_slice())
    }

    /// The player in a slot.
    pub fn get(&self, player_index: usize) -> (r: Option<&HQMConnectedPlayer>)
        ensures
            match r {
                Some(p) => player_at(self@, player_index as int) == Some(p@),
                None => player_at(self@, player_index as int) is None,
            },
    {
        if player_index < self.players.len() {
            self.players[player_index].as_ref()
        } else {
            None
        }
    }

    /// The player in a slot, to be changed.
    pub fn get_mut(&mut self, player_index: usize) -> (r: Option<&mut HQMConnectedPlayer>)
        ensures
            match r {
                Some(p) => {
                    &&& player_at(old(self)@, player_index as int) == Some((*p)@)
                    &&& final(self)@ == old(self)@.update(player_index as int, Some((*final(p))@))
                },
                None => {
                    &&& player_at(old(self)@, player_index as int) is None
                    &&& final(self)@ == old(self)@
                },
            },
    {
        if player_index < self.players.len() {
            match &mut self.players[player_index] {
                Some(p) => Some(p),
                None => None,
            }
        } else {
            None
        }
    }

    /// Empties a slot.
    pub fn remove_player(&mut self, player_index: usize)
        requires
            player_index < old(self)@.len(),
        ensures
            final(self)@ =~= old(self)@.update(player_index as int, None),
    {
        self.players.set(player_index, None);
    }

    /// Puts a player into a slot.
    pub fn add_player(&mut self, player_index: usize, player: HQMConnectedPlayer)
        requires
            player_index < old(self)@.len(),
        ensures
            final(self)@ =~= old(self)@.update(player_index as int, Some(player@)),
    {
        self.players.set(player_index, Some(player));
    }

    /// Gives every player a message.
    pub(crate) fn tell_all(&mut self, message: &Rc<HQMMessage>)
        ensures
            final(self)@ =~= told_all(old(self)@, (*message)@),
    {
        let ghost pre = self@;
        let ghost m = (*message)@;
        let mut i: usize = 0;
        while i < self.len()
            invariant
                i <= pre.len(),
                m == (*message)@,
                self@.len() == pre.len(),
                forall|j: int| 0 <= j < i ==> #[trigger] self@[j] == told_slot(pre[j], m),
                forall|j: int| i <= j < pre.len() ==> #[trigger] self@[j] == pre[j],
            decreases pre.len() - i,
        {
            let ghost before = self@;
            if let Some(player) = self.get_mut(i) {
                player.push_message(share(message));
            }
            assert(self@[i as int] == told_slot(pre[i as int], m));
            i = i + 1;
        }
    }
}

} // verus!
