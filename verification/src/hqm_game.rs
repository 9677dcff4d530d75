//! The state of a game: the objects on the ice, the score, the clock and the
//! messages that have been sent.
//!
//! Nothing here moves an object. The simulation does that elsewhere, in floating
//! point; where a floating-point number has to be carried along, its bit pattern
//! is held in a `u32`.
use crate::search::first_from;
use std::collections::VecDeque;
use std::rc::Rc;
use vstd::prelude::*;

verus! {

#[derive(Copy, Clone, PartialEq, Eq, Structural, Debug)]
pub enum HQMTeam {
    Red,
    Blue,
}

impl HQMTeam {
    /// The number that stands for the team on the wire.
    pub open spec fn num(self) -> u32 {
        match self {
            HQMTeam::Red => 0,
            HQMTeam::Blue => 1,
        }
    }

    pub fn get_num(self) -> (n: u32)
        ensures
            n == self.num(),
    {
        match self {
            HQMTeam::Red => 0,
            HQMTeam::Blue => 1,
        }
    }
}

#[derive(Copy, Clone, PartialEq, Eq, Structural, Debug)]
pub enum HQMSkaterHand {
    Left,
    Right,
}

/// How an infringement is shown to the players.
#[derive(Copy, Clone, PartialEq, Eq, Structural, Debug)]
pub enum HQMRuleIndication {
    No,
    Warning,
    Yes,
}

/// What the rules have to say about the current play.
#[derive(Copy, Clone, PartialEq, Eq, Structural, Debug)]
pub enum HQMRulesState {
    Regular { offside_warning: bool, icing_warning: bool },
    Offside,
    Icing,
}

/// A message that clients show or act on.
#[derive(Debug)]
#[allow(inconsistent_fields)]
pub enum HQMMessage {
    PlayerUpdate {
        player_name: String,
        object: Option<(usize, HQMTeam)>,
        player_index: usize,
        in_server: bool,
    },
    Goal {
        team: HQMTeam,
        goal_player_index: Option<usize>,
        assist_player_index: Option<usize>,
    },
    Chat { player_index: Option<usize>, message: String },
}

/// The contents of an [`HQMMessage`].
#[allow(inconsistent_fields)]
pub enum MessageView {
    PlayerUpdate {
        player_name: Seq<char>,
        object: Option<(usize, HQMTeam)>,
        player_index: usize,
        in_server: bool,
    },
    Goal {
        team: HQMTeam,
        goal_player_index: Option<usize>,
        assist_player_index: Option<usize>,
    },
    Chat { player_index: Option<usize>, message: Seq<char> },
}

impl View for HQMMessage {
    type V = MessageView;

    open spec fn view(&self) -> MessageView {
        match *self {
            HQMMessage::PlayerUpdate { player_name, object, player_index, in_server } => {
                MessageView::PlayerUpdate {
                    player_name: player_name@,
                    object,
                    player_index,
                    in_server,
                }
            },
            HQMMessage::Goal { team, goal_player_index, assist_player_index } => {
                MessageView::Goal { team, goal_player_index, assist_player_index }
            },
            HQMMessage::Chat { player_index, message } => {
                MessageView::Chat { player_index, message: message@ }
            },
        }
    }
}

/// The contents of a list of messages.
pub open spec fn messages_view(messages: Seq<Rc<HQMMessage>>) -> Seq<MessageView> {
    messages.map_values(|m: Rc<HQMMessage>| (*m)@)
}

/// The contents of a list with one more message.
pub broadcast proof fn lemma_messages_push(messages: Seq<Rc<HQMMessage>>, message: Rc<HQMMessage>)
    ensures
        #[trigger] messages_view(messages.push(message)) == messages_view(messages).push(
            (*message)@,
        ),
{
    assert(messages_view(messages.push(message)) =~= messages_view(messages).push((*message)@));
}

/// Calls `Rc::clone`. The result points to the same message.
#[verifier::external_body]
pub(crate) fn share(message: &Rc<HQMMessage>) -> (r: Rc<HQMMessage>)
    ensures
        r == *message,
{
    Rc::clone(message)
}

/// Another list of the same messages.
pub(crate) fn share_all(messages: &Vec<Rc<HQMMessage>>) -> (r: Vec<Rc<HQMMessage>>)
    ensures
        messages_view(r@) == messages_view(messages@),
{
    let mut r: Vec<Rc<HQMMessage>> = Vec::new();
    let mut i: usize = 0;
    while i < messages.len()
        invariant
            i <= messages@.len(),
            r@ =~= messages@.take(i as int),
        decreases messages@.len() - i,
    {
        r.push(share(&messages[i]));
        i = i + 1;
    }
    assert(r@ =~= messages@);
    r
}

/// What a player does with the controls. All but `keys` are bit patterns of
/// single-precision numbers.
#[derive(Copy, Clone, Debug)]
pub struct HQMPlayerInput {
    pub stick_angle: u32,
    pub turn: u32,
    pub unknown: u32,
    pub fwbw: u32,
    pub stick: (u32, u32),
    pub head_rot: u32,
    pub body_rot: u32,
    pub keys: u32,
}

impl HQMPlayerInput {
    /// No key pressed and every axis at zero.
    pub open spec fn neutral() -> Self {
        HQMPlayerInput {
            stick_angle: 0,
            turn: 0,
            unknown: 0,
            fwbw: 0,
            stick: (0, 0),
            head_rot: 0,
            body_rot: 0,
            keys: 0,
        }
    }
}

impl Default for HQMPlayerInput {
    fn default() -> (r: Self)
        ensures
            r == Self::neutral(),
    {
        HQMPlayerInput {
            stick_angle: 0,
            turn: 0,
            unknown: 0,
            fwbw: 0,
            stick: (0, 0),
            head_rot: 0,
            body_rot: 0,
            keys: 0,
        }
    }
}

/// A puck as it is sent to clients.
#[derive(Copy, Clone, PartialEq, Eq, Debug)]
pub struct HQMPuckPacket {
    pub pos: (u32, u32, u32),
    pub rot: (u32, u32),
}

/// A skater as it is sent to clients.
#[derive(Copy, Clone, PartialEq, Eq, Debug)]
pub struct HQMSkaterPacket {
    pub pos: (u32, u32, u32),
    pub rot: (u32, u32),
    pub stick_pos: (u32, u32, u32),
    pub stick_rot: (u32, u32),
    pub head_rot: u32,
    pub body_rot: u32,
}

/// An object slot as it is sent to clients.
#[derive(Copy, Clone, PartialEq, Eq, Debug)]
pub enum HQMObjectPacket {
    Empty,
    Puck(HQMPuckPacket),
    Skater(HQMSkaterPacket),
}

/// Where a skater stands and which way it faces.
#[derive(Copy, Clone, Debug)]
pub struct HQMPlacement {
    /// Bit patterns of the three coordinates.
    pub pos: (u32, u32, u32),
    /// Bit patterns of the rows of the rotation matrix.
    pub rot: ((u32, u32, u32), (u32, u32, u32), (u32, u32, u32)),
    /// How a skater that stands there is sent to clients.
    pub packet: HQMSkaterPacket,
}

/// The four places where players enter the ice. They depend on the size of the rink.
#[derive(Copy, Clone, Debug)]
pub struct HQMSpawnTable {
    pub red_center: HQMPlacement,
    pub red_bench: HQMPlacement,
    pub blue_center: HQMPlacement,
    pub blue_bench: HQMPlacement,
}

#[derive(Copy, Clone, Debug)]
pub struct HQMPuck {
    /// How the puck is sent to clients.
    pub packet: HQMPuckPacket,
}

impl HQMPuck {
    pub fn get_packet(&self) -> (p: HQMPuckPacket)
        ensures
            p == self.packet,
    {
        self.packet
    }
}

#[derive(Copy, Clone, Debug)]
pub struct HQMSkater {
    pub connected_player_index: usize,
    pub team: HQMTeam,
    pub hand: HQMSkaterHand,
    /// Bit pattern of the mass.
    pub mass: u32,
    pub input: HQMPlayerInput,
    /// Where the skater entered the ice.
    pub start: HQMPlacement,
    /// How the skater is sent to clients.
    pub packet: HQMSkaterPacket,
}

impl HQMSkater {
    /// A skater that has just been placed.
    pub open spec fn fresh(
        team: HQMTeam,
        start: HQMPlacement,
        hand: HQMSkaterHand,
        connected_player_index: usize,
        mass: u32,
    ) -> Self {
        HQMSkater {
            connected_player_index,
            team,
            hand,
            mass,
            input: HQMPlayerInput::neutral(),
            start,
            packet: start.packet,
        }
    }

    pub fn new(
        team: HQMTeam,
        start: HQMPlacement,
        hand: HQMSkaterHand,
        connected_player_index: usize,
        mass: u32,
    ) -> (s: Self)
        ensures
            s == Self::fresh(team, start, hand, connected_player_index, mass),
    {
        HQMSkater {
            connected_player_index,
            team,
            hand,
            mass,
            input: HQMPlayerInput::default(),
            start,
            packet: start.packet,
        }
    }

    pub fn get_packet(&self) -> (p: HQMSkaterPacket)
        ensures
            p == self.packet,
    {
        self.packet
    }
}

/// What occupies an object slot.
#[derive(Copy, Clone, Debug)]
pub enum HQMGameObject {
    Empty,
    Puck(HQMPuck),
    Player(HQMSkater),
}

impl HQMGameObject {
    /// The slot holds the skater of player `player_index`.
    pub open spec fn is_skater_of(self, player_index: usize) -> bool {
        match self {
            HQMGameObject::Player(skater) => skater.connected_player_index == player_index,
            _ => false,
        }
    }

    /// The slot as it is sent to clients.
    pub open spec fn packet(self) -> HQMObjectPacket {
        match self {
            HQMGameObject::Puck(puck) => HQMObjectPacket::Puck(puck.packet),
            HQMGameObject::Player(skater) => HQMObjectPacket::Skater(skater.packet),
            HQMGameObject::Empty => HQMObjectPacket::Empty,
        }
    }
}

/// The objects on the ice.
pub struct HQMGameWorld {
    pub objects: Vec<HQMGameObject>,
    /// The first slots are kept for pucks. Skaters go to the slots behind them.
    pub puck_slots: usize,
    pub spawns: HQMSpawnTable,
}

/// The contents of an [`HQMGameWorld`].
pub struct WorldView {
    pub objects: Seq<HQMGameObject>,
    pub puck_slots: usize,
    pub spawns: HQMSpawnTable,
}

impl WorldView {
    /// The slot of the skater of player `player_index`.
    pub open spec fn skater_slot(self, player_index: usize) -> Option<usize> {
        first_from(self.objects, |o: HQMGameObject| o.is_skater_of(player_index), 0)
    }

    /// The slot that the next skater goes to.
    pub open spec fn free_slot(self) -> Option<usize> {
        first_from(self.objects, |o: HQMGameObject| o is Empty, self.puck_slots as int)
    }

    /// The world with another object in one slot.
    pub open spec fn with_object(self, slot: usize, object: HQMGameObject) -> Self {
        WorldView { objects: self.objects.update(slot as int, object), ..self }
    }

    /// The world without the skater of player `player_index`.
    pub open spec fn without_skater(self, player_index: usize) -> Self {
        match self.skater_slot(player_index) {
            Some(slot) => self.with_object(slot, HQMGameObject::Empty),
            None => self,
        }
    }
}

impl View for HQMGameWorld {
    type V = WorldView;

    open spec fn view(&self) -> WorldView {
        WorldView { objects: self.objects@, puck_slots: self.puck_slots, spawns: self.spawns }
    }
}

impl HQMGameWorld {
    /// The slot of the skater of player `player_index`.
    pub fn find_skater(&self, player_index: usize) -> (slot: Option<usize>)
        ensures
            slot == self@.skater_slot(player_index),
            slot matches Some(i) ==> i < self.objects@.len() && self.objects@[i as int].is_skater_of(
                player_index,
            ),
    {
        let ghost p = |o: HQMGameObject| o.is_skater_of(player_index);
        let mut i: usize = 0;
        while i < self.objects.len()
            invariant
                i <= self.objects@.len(),
                p == (|o: HQMGameObject| o.is_skater_of(player_index)),
                self@.skater_slot(player_index) == first_from(self.objects@, p, i as int),
            decreases self.objects@.len() - i,
        {
            if let HQMGameObject::Player(skater) = &self.objects[i] {
                if skater.connected_player_index == player_index {
                    return Some(i);
                }
            }
            i = i + 1;
        }
        None
    }

    /// Takes the skater of player `player_index` off the ice.
    pub fn remove_player(&mut self, player_index: usize) -> (slot: Option<usize>)
        ensures
            slot == old(self)@.skater_slot(player_index),
            final(self)@ == old(self)@.without_skater(player_index),
    {
        let slot = self.find_skater(player_index);
        if let Some(i) = slot {
            self.objects.set(i, HQMGameObject::Empty);
        }
        slot
    }

    /// Places a new skater in the first free slot.
    pub fn create_player_object(
        &mut self,
        team: HQMTeam,
        start: HQMPlacement,
        hand: HQMSkaterHand,
        player_index: usize,
        mass: u32,
    ) -> (slot: Option<usize>)
        ensures
            slot == old(self)@.free_slot(),
            match slot {
                Some(i) => {
                    &&& i < old(self).objects@.len()
                    &&& final(self)@ == old(self)@.with_object(
                        i,
                        HQMGameObject::Player(
                            HQMSkater::fresh(team, start, hand, player_index, mass),
                        ),
                    )
                },
                None => final(self)@ == old(self)@,
            },
    {
        let ghost p = |o: HQMGameObject| o is Empty;
        let mut i: usize = self.puck_slots;
        let ghost pre = self@;
        while i < self.objects.len()
            invariant
                p == (|o: HQMGameObject| o is Empty),
                self@ == pre,
                pre == old(self)@,
                pre.free_slot() == first_from(pre.objects, p, i as int),
            decreases self.objects@.len() - i,
        {
            if let HQMGameObject::Empty = &self.objects[i] {
                self.objects.set(
                    i,
                    HQMGameObject::Player(HQMSkater::new(team, start, hand, player_index, mass)),
                );
                return Some(i);
            }
            i = i + 1;
        }
        None
    }
}

/// What was sent to clients after a past simulation step.
#[derive(Debug)]
pub struct HQMSavedTick {
    pub packets: Vec<HQMObjectPacket>,
    /// When the step was made, in nanoseconds of the server's clock.
    pub time: u64,
}

/// The contents of an [`HQMSavedTick`].
pub struct TickView {
    pub packets: Seq<HQMObjectPacket>,
    pub time: u64,
}

impl View for HQMSavedTick {
    type V = TickView;

    open spec fn view(&self) -> TickView {
        TickView { packets: self.packets@, time: self.time }
    }
}

/// The contents of a list of past steps.
pub open spec fn ticks_view(ticks: Seq<HQMSavedTick>) -> Seq<TickView> {
    ticks.map_values(|t: HQMSavedTick| t@)
}

/// Every past step has a packet for each object slot.
pub open spec fn ticks_wf(ticks: Seq<TickView>) -> bool {
    forall|i: int| 0 <= i < ticks.len() ==> (#[trigger] ticks[i]).packets.len() >= OBJECT_SLOTS
}

/// When a game started.
#[derive(Copy, Clone, PartialEq, Eq, Structural, Debug)]
pub struct HQMStartTime {
    pub year: u16,
    pub month: u8,
    pub day: u8,
    pub hour: u8,
    pub minute: u8,
    pub second: u8,
}

/// A game.
pub struct HQMGame {
    /// Messages that a player who joins later has to see too.
    pub persistent_messages: Vec<Rc<HQMMessage>>,
    pub replay_data: Vec<u8>,
    /// How many of the replay messages are in the replay data already.
    pub replay_msg_pos: usize,
    pub replay_last_packet: u32,
    pub replay_messages: Vec<Rc<HQMMessage>>,
    /// Past simulation steps, the latest first.
    pub saved_ticks: VecDeque<HQMSavedTick>,
    /// The number of the latest simulation step.
    pub packet: u32,
    pub game_step: u32,
    pub game_over: bool,
    pub red_score: u32,
    pub blue_score: u32,
    pub time: u32,
    pub time_break: u32,
    pub period: u32,
    pub is_intermission_goal: bool,
    pub offside_indication: HQMRuleIndication,
    pub icing_indication: HQMRuleIndication,
    /// Players have been in the game.
    pub active: bool,
    pub start_time: HQMStartTime,
    pub world: HQMGameWorld,
}

/// The contents of an [`HQMGame`].
pub struct GameView {
    pub persistent_messages: Seq<MessageView>,
    pub replay_data: Seq<u8>,
    pub replay_msg_pos: usize,
    pub replay_last_packet: u32,
    pub replay_messages: Seq<MessageView>,
    pub saved_ticks: Seq<TickView>,
    pub packet: u32,
    pub game_step: u32,
    pub game_over: bool,
    pub red_score: u32,
    pub blue_score: u32,
    pub time: u32,
    pub time_break: u32,
    pub period: u32,
    pub is_intermission_goal: bool,
    pub offside_indication: HQMRuleIndication,
    pub icing_indication: HQMRuleIndication,
    pub active: bool,
    pub start_time: HQMStartTime,
    pub world: WorldView,
}

impl GameView {
    /// There are enough object slots, in the world and in every past step, and
    /// the replay data holds no more messages than there are.
    #[verifier::opaque]
    pub open spec fn wf(self) -> bool {
        &&& self.world.objects.len() >= OBJECT_SLOTS
        &&& ticks_wf(self.saved_ticks)
        &&& self.replay_msg_pos <= self.replay_messages.len()
    }
}

impl View for HQMGame {
    type V = GameView;

    open spec fn view(&self) -> GameView {
        GameView {
            persistent_messages: messages_view(self.persistent_messages@),
            replay_data: self.replay_data@,
            replay_msg_pos: self.replay_msg_pos,
            replay_last_packet: self.replay_last_packet,
            replay_messages: messages_view(self.replay_messages@),
            saved_ticks: ticks_view(self.saved_ticks@),
            packet: self.packet,
            game_step: self.game_step,
            game_over: self.game_over,
            red_score: self.red_score,
            blue_score: self.blue_score,
            time: self.time,
            time_break: self.time_break,
            period: self.period,
            is_intermission_goal: self.is_intermission_goal,
            offside_indication: self.offside_indication,
            icing_indication: self.icing_indication,
            active: self.active,
            start_time: self.start_time,
            world: self.world@,
        }
    }
}

/// The number of object slots that are sent to clients.
pub const OBJECT_SLOTS: usize = 32;

/// The slots as they are sent to clients.
pub open spec fn object_packets(objects: Seq<HQMGameObject>) -> Seq<HQMObjectPacket> {
    Seq::new(OBJECT_SLOTS as nat, |i: int| objects[i].packet())
}

} // verus!
