//! The commands that players give in the chat.
use crate::hqm_game::HQMSkaterHand;
use crate::players::{HQMConnectedPlayer, PlayerView};
use crate::search::first_from;
use crate::server::{HQMServer, ServerView};
use crate::text::{
    concat, contains, format_list_line, index_of, list_line, lowercase, occurs_in, parse_index,
    str_eq, to_lowercase,
};
use vstd::prelude::*;

verus! {

/// Something that an administrator asks for. Whether the player who asks is an
/// administrator is for the administration of the server to find out.
#[derive(Debug)]
pub enum HQMAdminCommand {
    SetAllowJoin(bool),
    Mute(usize),
    Unmute(usize),
    MuteChat,
    UnmuteChat,
    ForceOffIce(usize),
    Kick { player_index: usize, ban: bool },
    KickAllMatching { name: String, ban: bool },
    ClearBans,
    Login { password: String },
}

/// The contents of an [`HQMAdminCommand`].
pub enum AdminCommandView {
    SetAllowJoin(bool),
    Mute(usize),
    Unmute(usize),
    MuteChat,
    UnmuteChat,
    ForceOffIce(usize),
    Kick { player_index: usize, ban: bool },
    KickAllMatching { name: Seq<char>, ban: bool },
    ClearBans,
    Login { password: Seq<char> },
}

impl View for HQMAdminCommand {
    type V = AdminCommandView;

    open spec fn view(&self) -> AdminCommandView {
        match *self {
            HQMAdminCommand::SetAllowJoin(allowed) => AdminCommandView::SetAllowJoin(allowed),
            HQMAdminCommand::Mute(i) => AdminCommandView::Mute(i),
            HQMAdminCommand::Unmute(i) => AdminCommandView::Unmute(i),
            HQMAdminCommand::MuteChat => AdminCommandView::MuteChat,
            HQMAdminCommand::UnmuteChat => AdminCommandView::UnmuteChat,
            HQMAdminCommand::ForceOffIce(i) => AdminCommandView::ForceOffIce(i),
            HQMAdminCommand::Kick { player_index, ban } => AdminCommandView::Kick {
                player_index,
                ban,
            },
            HQMAdminCommand::KickAllMatching { name, ban } => AdminCommandView::KickAllMatching {
                name: name@,
                ban,
            },
            HQMAdminCommand::ClearBans => AdminCommandView::ClearBans,
            HQMAdminCommand::Login { password } => AdminCommandView::Login { password: password@ },
        }
    }
}

/// What is left to be done after a command has been taken in.
#[derive(Debug)]
pub enum HQMRequest {
    /// A command for the administration of the server, from player `player_index`.
    Admin { player_index: usize, command: HQMAdminCommand },
    /// Player `player_index` is to be told what the round-trip times of another
    /// player, in nanoseconds, look like.
    PingStatistics { player_index: usize, player_name: String, samples: Vec<u64> },
}

/// The contents of an [`HQMRequest`].
#[allow(inconsistent_fields)]
pub enum RequestView {
    Admin { player_index: usize, command: AdminCommandView },
    PingStatistics { player_index: usize, player_name: Seq<char>, samples: Seq<u64> },
}

impl View for HQMRequest {
    type V = RequestView;

    open spec fn view(&self) -> RequestView {
        match *self {
            HQMRequest::Admin { player_index, command } => RequestView::Admin {
                player_index,
                command: command@,
            },
            HQMRequest::PingStatistics { player_index, player_name, samples } => {
                RequestView::PingStatistics {
                    player_index,
                    player_name: player_name@,
                    samples: samples@,
                }
            },
        }
    }
}

/// The contents of what may be a request.
pub open spec fn request_view(request: Option<HQMRequest>) -> Option<RequestView> {
    match request {
        Some(r) => Some(r@),
        None => None,
    }
}

/// The only player with a name.
pub open spec fn unique_match(slots: Seq<Option<PlayerView>>, name: Seq<char>) -> Option<usize> {
    let named = |p: Option<PlayerView>| p is Some && p->0.player_name == name;
    match first_from(slots, named, 0) {
        Some(i) => if first_from(slots, named, i + 1) is None {
            Some(i)
        } else {
            None
        },
        None => None,
    }
}

/// The players in the slots from `from` up to `to` for whose slot `hit` holds,
/// with their names.
pub open spec fn found(
    slots: Seq<Option<PlayerView>>,
    hit: spec_fn(int) -> bool,
    from: int,
    to: int,
) -> Seq<(usize, Seq<char>)>
    decreases to - from,
{
    if to <= from {
        Seq::empty()
    } else {
        let before = found(slots, hit, from, to - 1);
        match slots[to - 1] {
            Some(player) => if hit(to - 1) {
                before.push(((to - 1) as usize, player.player_name))
            } else {
                before
            },
            None => before,
        }
    }
}

/// The most players that are listed at a time.
pub const LIST_LENGTH: usize = 5;

/// The first players of a list.
pub open spec fn first_of_list(list: Seq<(usize, Seq<char>)>) -> Seq<(usize, Seq<char>)> {
    if list.len() <= LIST_LENGTH {
        list
    } else {
        list.take(LIST_LENGTH as int)
    }
}

/// The first players at or after slot `first`.
pub open spec fn listed(slots: Seq<Option<PlayerView>>, first: int) -> Seq<(usize, Seq<char>)> {
    first_of_list(found(slots, |i: int| true, first, slots.len() as int))
}

/// The first players for whom `query` occurs in the text that `lowered` has for their slot.
pub open spec fn matches_in(
    slots: Seq<Option<PlayerView>>,
    lowered: Seq<Seq<char>>,
    query: Seq<char>,
) -> Seq<(usize, Seq<char>)> {
    first_of_list(
        found(slots, |i: int| occurs_in(query, lowered[i]), 0, slots.len() as int),
    )
}

/// The names of the players in lower case. An empty slot has an empty text.
pub open spec fn lower_names(slots: Seq<Option<PlayerView>>) -> Seq<Seq<char>> {
    Seq::new(
        slots.len(),
        |i: int|
            match slots[i] {
                Some(player) => lowercase(player.player_name),
                None => Seq::empty(),
            },
    )
}

/// The first players in whose name a text occurs, in upper or lower case.
pub open spec fn search_matches(slots: Seq<Option<PlayerView>>, name: Seq<char>) -> Seq<
    (usize, Seq<char>),
> {
    matches_in(slots, lower_names(slots), lowercase(name))
}

/// The contents of a list of players.
pub open spec fn list_view(list: Seq<(usize, String)>) -> Seq<(usize, Seq<char>)> {
    list.map_values(|e: (usize, String)| (e.0, e.1@))
}

proof fn lemma_found_prefix(
    slots: Seq<Option<PlayerView>>,
    hit: spec_fn(int) -> bool,
    from: int,
    mid: int,
    to: int,
)
    requires
        from <= mid <= to,
    ensures
        found(slots, hit, from, mid).len() <= found(slots, hit, from, to).len(),
        found(slots, hit, from, to).take(found(slots, hit, from, mid).len() as int) =~= found(
            slots,
            hit,
            from,
            mid,
        ),
    decreases to - mid,
{
    if mid < to {
        lemma_found_prefix(slots, hit, from, mid, to - 1);
        let a = found(slots, hit, from, mid);
        let b = found(slots, hit, from, to - 1);
        let c = found(slots, hit, from, to);
        assert(c.take(b.len() as int) =~= b);
        assert(c.take(a.len() as int) =~= b.take(a.len() as int));
    }
}

impl ServerView {
    /// After a player has been told some lines of a list.
    pub open spec fn tell_list(self, receiver: usize, list: Seq<(usize, Seq<char>)>) -> Self
        decreases list.len(),
    {
        if list.len() == 0 {
            self
        } else {
            self.tell_list(receiver, list.drop_last()).tell(
                receiver,
                list_line(list.last().0, list.last().1),
            )
        }
    }

    /// After player `i` has asked for the list of players from slot `first` on.
    #[verifier::opaque]
    pub open spec fn after_list(self, i: usize, first: usize) -> Self {
        self.tell_list(i, listed(self.players, first as int))
    }

    /// After player `i` has searched for a name.
    #[verifier::opaque]
    pub open spec fn after_search(self, i: usize, name: Seq<char>) -> Self {
        let matches = search_matches(self.players, name);
        if matches.len() == 0 {
            self.tell(i, "No matches found"@)
        } else {
            self.tell_list(i, matches)
        }
    }

    /// After player `i` has asked to see through the eyes of player `target`.
    /// Only a player who is not on the ice may.
    #[verifier::opaque]
    pub open spec fn after_view(self, target: usize, i: usize) -> Self {
        if target < self.players.len() {
            match self.player(target) {
                Some(target_player) => match self.player(i) {
                    Some(player) => if target == player.view_player_index {
                        self
                    } else if self.game.world.skater_slot(i) is Some {
                        self.tell(i, "You must be a spectator to change view"@)
                    } else {
                        let seen = self.with_player(
                            i,
                            PlayerView { view_player_index: target, ..player },
                        );
                        if i != target {
                            seen.tell(i, "You are now viewing "@ + target_player.player_name)
                        } else {
                            seen.tell(i, "View has been restored"@)
                        }
                    },
                    None => self,
                },
                None => self.tell(i, "No player with this ID exists"@),
            }
        } else {
            self
        }
    }

    /// After player `i` has asked for the ping of player `target`, and what is
    /// left to be done then.
    #[verifier::opaque]
    pub open spec fn after_ping(self, target: usize, i: usize) -> (Self, Option<RequestView>) {
        if target < self.players.len() {
            match self.player(target) {
                Some(player) => if player.last_ping.len() == 0 {
                    (self.tell(i, "No ping values found for "@ + player.player_name), None)
                } else {
                    (
                        self,
                        Some(
                            RequestView::PingStatistics {
                                player_index: i,
                                player_name: player.player_name,
                                samples: player.last_ping,
                            },
                        ),
                    )
                },
                None => (self.tell(i, "No player with this ID exists"@), None),
            }
        } else {
            (self, None)
        }
    }

    /// After player `i` has asked to see through their own eyes again.
    #[verifier::opaque]
    pub open spec fn after_restore_view(self, i: usize) -> Self {
        match self.player(i) {
            Some(player) => if player.view_player_index != i {
                self.with_player(i, PlayerView { view_player_index: i, ..player }).tell(
                    i,
                    "View has been restored"@,
                )
            } else {
                self
            },
            None => self,
        }
    }

    /// The player that a name stands for: the only one who has it, or else the
    /// only one in whose name it occurs.
    #[verifier::opaque]
    pub open spec fn named_player(self, name: Seq<char>) -> Option<usize> {
        match unique_match(self.players, name) {
            Some(i) => Some(i),
            None => {
                let matches = search_matches(self.players, name);
                if matches.len() == 1 {
                    Some(matches[0].0)
                } else {
                    None
                }
            },
        }
    }

    /// After player `i` has given a name that does not stand for one player.
    #[verifier::opaque]
    pub open spec fn after_ambiguous(self, i: usize, name: Seq<char>, hint: Seq<char>) -> Self {
        let matches = search_matches(self.players, name);
        if matches.len() == 0 {
            self.tell(i, "No matches found"@)
        } else {
            self.tell(i, hint).tell_list(i, matches)
        }
    }
}

impl HQMServer {
    /// The only player with a name.
    pub fn player_exact_unique_match(&self, name: &str) -> (r: Option<(usize, String)>)
        ensures
            match r {
                Some((i, s)) => unique_match(self@.players, name@) == Some(i) && s@ == name@
                    && i < self@.players.len(),
                None => unique_match(self@.players, name@) is None,
            },
    {
        let ghost slots = self@.players;
        let ghost named = |p: Option<PlayerView>| p is Some && p->0.player_name == name@;
        let n: usize = self.slots();
        let mut result: Option<(usize, String)> = None;
        let mut i: usize = 0;
        while i < n
            invariant
                i <= n == slots.len(),
                slots == self@.players,
                named == (|p: Option<PlayerView>| p is Some && p->0.player_name == name@),
                match result {
                    Some((k, s)) => {
                        &&& k < i
                        &&& first_from(slots, named, 0) == Some(k)
                        &&& s@ == name@
                        &&& first_from(slots, named, k + 1) == first_from(slots, named, i as int)
                    },
                    None => first_from(slots, named, 0) == first_from(slots, named, i as int),
                },
            decreases n - i,
        {
            if let Some(player) = self.get_player(i) {
                if str_eq(player.player_name.as_str(), name) {
                    if result.is_none() {
                        result = Some((i, player.player_name.clone()));
                    } else {
                        return None;
                    }
                }
            }
            i = i + 1;
        }
        result
    }

    /// The first players in whose name a text occurs, in upper or lower case.
    pub fn player_search(&self, name: &str) -> (r: Vec<(usize, String)>)
        ensures
            list_view(r@) == search_matches(self@.players, name@),
    {
        let query = to_lowercase(name);
        let n: usize = self.slots();
        let ghost slots = self@.players;
        let mut lowered: Vec<String> = Vec::new();
        let mut i: usize = 0;
        while i < n
            invariant
                i <= n == slots.len(),
                slots == self@.players,
                lowered@.len() == i,
                forall|j: int|
                    0 <= j < i ==> (#[trigger] lowered@[j])@ == lower_names(slots)[j],
            decreases n - i,
        {
            lowered.push(
                match self.get_player(i) {
                    Some(player) => to_lowercase(player.player_name.as_str()),
                    None => String::new(),
                },
            );
            i = i + 1;
        }
        assert(lowered@.map_values(|s: String| s@) =~= lower_names(slots));
        self.player_search_lowered(&lowered, query.as_str())
    }

    /// The first players for whom `query` occurs in the text that `lowered` has for their slot.
    pub fn player_search_lowered(&self, lowered: &Vec<String>, query: &str) -> (r: Vec<
        (usize, String),
    >)
        requires
            lowered@.len() == self@.players.len(),
        ensures
            list_view(r@) == matches_in(
                self@.players,
                lowered@.map_values(|s: String| s@),
                query@,
            ),
    {
        let ghost slots = self@.players;
        let ghost texts = lowered@.map_values(|s: String| s@);
        let ghost hit = |i: int| occurs_in(query@, texts[i]);
        let n: usize = self.slots();
        let mut r: Vec<(usize, String)> = Vec::new();
        let mut i: usize = 0;
        while i < n
            invariant
                i <= n == slots.len(),
                slots == self@.players,
                lowered@.len() == n,
                texts == lowered@.map_values(|s: String| s@),
                hit == (|i: int| occurs_in(query@, texts[i])),
                r@.len() < LIST_LENGTH,
                list_view(r@) =~= found(slots, hit, 0, i as int),
            decreases n - i,
        {
            if let Some(player) = self.get_player(i) {
                if contains(lowered[i].as_str(), query) {
                    let ghost before = list_view(r@);
                    r.push((i, player.player_name.clone()));
                    assert(list_view(r@) =~= before.push((i, player.player_name@)));
                    if r.len() >= LIST_LENGTH {
                        proof {
                            lemma_found_prefix(slots, hit, 0, i + 1, n as int);
                        }
                        return r;
                    }
                }
            }
            i = i + 1;
        }
        r
    }
}

/// What a chat command asks the administration of the server for. The inner
/// value is absent if the argument makes no sense.
#[verifier::opaque]
pub open spec fn admin_command_of(slots: nat, command: Seq<char>, arg: Seq<char>) -> Option<
    Option<AdminCommandView>,
> {
    let target = slot_arg(slots, arg);
    if command == "enablejoin"@ {
        Some(Some(AdminCommandView::SetAllowJoin(true)))
    } else if command == "disablejoin"@ {
        Some(Some(AdminCommandView::SetAllowJoin(false)))
    } else if command == "mute"@ {
        Some(match target {
            Some(i) => Some(AdminCommandView::Mute(i)),
            None => None,
        })
    } else if command == "unmute"@ {
        Some(match target {
            Some(i) => Some(AdminCommandView::Unmute(i)),
            None => None,
        })
    } else if command == "mutechat"@ {
        Some(Some(AdminCommandView::MuteChat))
    } else if command == "unmutechat"@ {
        Some(Some(AdminCommandView::UnmuteChat))
    } else if command == "fs"@ {
        Some(match target {
            Some(i) => Some(AdminCommandView::ForceOffIce(i)),
            None => None,
        })
    } else if command == "kick"@ {
        Some(match target {
            Some(i) => Some(AdminCommandView::Kick { player_index: i, ban: false }),
            None => None,
        })
    } else if command == "kickall"@ {
        Some(Some(AdminCommandView::KickAllMatching { name: arg, ban: false }))
    } else if command == "ban"@ {
        Some(match target {
            Some(i) => Some(AdminCommandView::Kick { player_index: i, ban: true }),
            None => None,
        })
    } else if command == "banall"@ {
        Some(Some(AdminCommandView::KickAllMatching { name: arg, ban: true }))
    } else if command == "clearbans"@ {
        Some(Some(AdminCommandView::ClearBans))
    } else if command == "admin"@ {
        Some(Some(AdminCommandView::Login { password: arg }))
    } else {
        None
    }
}

/// The player slot that an argument stands for.
pub open spec fn slot_arg(slots: nat, arg: Seq<char>) -> Option<usize> {
    match index_of(arg) {
        Some(i) => if i < slots {
            Some(i)
        } else {
            None
        },
        None => None,
    }
}

fn parse_slot(slots: usize, arg: &str) -> (r: Option<usize>)
    ensures
        r == slot_arg(slots as nat, arg@),
{
    match parse_index(arg) {
        Some(i) => if i < slots {
            Some(i)
        } else {
            None
        },
        None => None,
    }
}

/// The contents of what may be an administration command.
pub open spec fn admin_view(command: Option<HQMAdminCommand>) -> Option<AdminCommandView> {
    match command {
        Some(c) => Some(c@),
        None => None,
    }
}

/// Finds out what a chat command asks the administration of the server for.
pub fn parse_admin_command(slots: usize, command: &str, arg: &str) -> (r: Option<
    Option<HQMAdminCommand>,
>)
    ensures
        match r {
            Some(c) => admin_command_of(slots as nat, command@, arg@) == Some(admin_view(c)),
            None => admin_command_of(slots as nat, command@, arg@) is None,
        },
{
    reveal(admin_command_of);
    let target = parse_slot(slots, arg);
    if str_eq(command, "enablejoin") {
        Some(Some(HQMAdminCommand::SetAllowJoin(true)))
    } else if str_eq(command, "disablejoin") {
        Some(Some(HQMAdminCommand::SetAllowJoin(false)))
    } else if str_eq(command, "mute") {
        Some(match target {
            Some(i) => Some(HQMAdminCommand::Mute(i)),
            None => None,
        })
    } else if str_eq(command, "unmute") {
        Some(match target {
            Some(i) => Some(HQMAdminCommand::Unmute(i)),
            None => None,
        })
    } else if str_eq(command, "mutechat") {
        Some(Some(HQMAdminCommand::MuteChat))
    } else if str_eq(command, "unmutechat") {
        Some(Some(HQMAdminCommand::UnmuteChat))
    } else if str_eq(command, "fs") {
        Some(match target {
            Some(i) => Some(HQMAdminCommand::ForceOffIce(i)),
            None => None,
        })
    } else if str_eq(command, "kick") {
        Some(match target {
            Some(i) => Some(HQMAdminCommand::Kick { player_index: i, ban: false }),
            None => None,
        })
    } else if str_eq(command, "kickall") {
        Some(Some(HQMAdminCommand::KickAllMatching { name: arg.to_owned(), ban: false }))
    } else if str_eq(command, "ban") {
        Some(match target {
            Some(i) => Some(HQMAdminCommand::Kick { player_index: i, ban: true }),
            None => None,
        })
    } else if str_eq(command, "banall") {
        Some(Some(HQMAdminCommand::KickAllMatching { name: arg.to_owned(), ban: true }))
    } else if str_eq(command, "clearbans") {
        Some(Some(HQMAdminCommand::ClearBans))
    } else if str_eq(command, "admin") {
        Some(Some(HQMAdminCommand::Login { password: arg.to_owned() }))
    } else {
        None
    }
}

impl ServerView {
    /// What the server makes of a command that any player may give, and what is
    /// left to be done then. Nothing, if the server does not know the command.
    #[verifier::opaque]
    pub open spec fn after_player_command(
        self,
        command: Seq<char>,
        arg: Seq<char>,
        i: usize,
    ) -> Option<(Self, Option<RequestView>)> {
        if command == "lefty"@ {
            Some((self.with_hand(i, HQMSkaterHand::Left), None))
        } else if command == "righty"@ {
            Some((self.with_hand(i, HQMSkaterHand::Right), None))
        } else if command == "list"@ {
            if arg.len() == 0 {
                Some((self.after_list(i, 0), None))
            } else {
                match index_of(arg) {
                    Some(first) => Some((self.after_list(i, first), None)),
                    None => Some((self, None)),
                }
            }
        } else if command == "search"@ {
            Some((self.after_search(i, arg), None))
        } else if command == "ping"@ {
            match index_of(arg) {
                Some(target) => Some(self.after_ping(target, i)),
                None => Some((self, None)),
            }
        } else if command == "pings"@ {
            match self.named_player(arg) {
                Some(target) => Some(self.after_ping(target, i)),
                None => Some(
                    (self.after_ambiguous(i, arg, "Multiple matches found, use /ping X"@), None),
                ),
            }
        } else if command == "view"@ {
            match index_of(arg) {
                Some(target) => Some((self.after_view(target, i), None)),
                None => Some((self, None)),
            }
        } else if command == "views"@ {
            match self.named_player(arg) {
                Some(target) => Some((self.after_view(target, i), None)),
                None => Some(
                    (self.after_ambiguous(i, arg, "Multiple matches found, use /view X"@), None),
                ),
            }
        } else if command == "restoreview"@ {
            Some((self.after_restore_view(i), None))
        } else {
            None
        }
    }

    /// What the server makes of a command, and what is left to be done then.
    /// Nothing, if the server does not know the command.
    pub open spec fn after_command(
        self,
        command: Seq<char>,
        arg: Seq<char>,
        i: usize,
    ) -> Option<(Self, Option<RequestView>)> {
        match admin_command_of(self.players.len(), command, arg) {
            Some(Some(c)) => Some((self, Some(RequestView::Admin { player_index: i, command: c }))),
            Some(None) => Some((self, None)),
            None => self.after_player_command(command, arg, i),
        }
    }
}

impl HQMServer {
    /// Tells a player some lines of a list.
    fn tell_list(&mut self, player_index: usize, list: &Vec<(usize, String)>)
        ensures
            final(self)@ == old(self)@.tell_list(player_index, list_view(list@)),
    {
        let ghost pre = self@;
        let ghost lines = list_view(list@);
        let mut i: usize = 0;
        assert(lines.take(0) =~= Seq::<(usize, Seq<char>)>::empty());
        while i < list.len()
            invariant
                i <= list@.len(),
                lines == list_view(list@),
                self@ == pre.tell_list(player_index, lines.take(i as int)),
            decreases list@.len() - i,
        {
            let line = format_list_line(list[i].0, list[i].1.as_str());
            self.add_directed_server_chat_message(line.as_str(), player_index);
            assert(lines.take(i + 1).drop_last() =~= lines.take(i as int));
            i = i + 1;
        }
        assert(lines.take(list@.len() as int) =~= lines);
    }

    /// The first players at or after slot `first_index`.
    fn players_from(&self, first_index: usize) -> (r: Vec<(usize, String)>)
        ensures
            list_view(r@) == listed(self@.players, first_index as int),
    {
        let ghost slots = self@.players;
        let ghost hit = |i: int| true;
        let n: usize = self.slots();
        let mut r: Vec<(usize, String)> = Vec::new();
        let mut i: usize = first_index;
        if i >= n {
            assert(list_view(r@) =~= Seq::<(usize, Seq<char>)>::empty());
            return r;
        }
        while i < n
            invariant
                first_index <= i <= n == slots.len(),
                slots == self@.players,
                hit == (|i: int| true),
                r@.len() < LIST_LENGTH,
                list_view(r@) =~= found(slots, hit, first_index as int, i as int),
            decreases n - i,
        {
            if let Some(player) = self.get_player(i) {
                let ghost before = list_view(r@);
                r.push((i, player.player_name.clone()));
                assert(list_view(r@) =~= before.push((i, player.player_name@)));
                if r.len() >= LIST_LENGTH {
                    proof {
                        lemma_found_prefix(slots, hit, first_index as int, i + 1, n as int);
                    }
                    return r;
                }
            }
            i = i + 1;
        }
        r
    }

    /// Tells a player who is in the slots from `first_index` on.
    pub fn list_players(&mut self, player_index: usize, first_index: usize)
        ensures
            final(self)@ == old(self)@.after_list(player_index, first_index),
    {
        reveal(ServerView::after_list);
        let list = self.players_from(first_index);
        self.tell_list(player_index, &list);
    }

    /// Tells a player in whose name a text occurs.
    pub fn search_players(&mut self, player_index: usize, name: &str)
        ensures
            final(self)@ == old(self)@.after_search(player_index, name@),
    {
        reveal(ServerView::after_search);
        let matches = self.player_search(name);
        assert(list_view(matches@).len() == matches@.len());
        if matches.len() == 0 {
            self.add_directed_server_chat_message("No matches found", player_index);
            return ;
        }
        self.tell_list(player_index, &matches);
    }

    /// Lets a player see through the eyes of another.
    pub fn view_player(&mut self, view_player_index: usize, player_index: usize)
        ensures
            final(self)@ == old(self)@.after_view(view_player_index, player_index),
    {
        reveal(ServerView::after_view);
        if view_player_index >= self.slots() {
            return ;
        }
        let view_player_name = match self.get_player(view_player_index) {
            Some(view_player) => view_player.player_name.clone(),
            None => {
                self.add_directed_server_chat_message(
                    "No player with this ID exists",
                    player_index,
                );
                return ;
            },
        };
        let current: usize = match self.get_player(player_index) {
            Some(player) => player.view_player_index,
            None => {
                return ;
            },
        };
        if view_player_index == current {
            return ;
        }
        if self.find_skater(player_index).is_some() {
            self.add_directed_server_chat_message(
                "You must be a spectator to change view",
                player_index,
            );
        } else {
            self.set_view(player_index, view_player_index);
            if player_index != view_player_index {
                let line = concat("You are now viewing ", view_player_name.as_str());
                self.add_directed_server_chat_message(line.as_str(), player_index);
            } else {
                self.add_directed_server_chat_message("View has been restored", player_index);
            }
        }
    }

    /// Finds out what a player is to be told of the ping of another.
    pub fn ping(&mut self, ping_player_index: usize, player_index: usize) -> (r: Option<HQMRequest>)
        ensures
            (final(self)@, request_view(r)) == old(self)@.after_ping(
                ping_player_index,
                player_index,
            ),
    {
        reveal(ServerView::after_ping);
        if ping_player_index >= self.slots() {
            return None;
        }
        match self.get_player(ping_player_index) {
            Some(ping_player) => {
                if ping_player.last_ping.len() == 0 {
                    let line = concat(
                        "No ping values found for ",
                        ping_player.player_name.as_str(),
                    );
                    self.add_directed_server_chat_message(line.as_str(), player_index);
                    None
                } else {
                    let player_name = ping_player.player_name.clone();
                    let samples = ping_samples(ping_player);
                    Some(HQMRequest::PingStatistics { player_index, player_name, samples })
                }
            },
            None => {
                self.add_directed_server_chat_message(
                    "No player with this ID exists",
                    player_index,
                );
                None
            },
        }
    }

    /// Tells a player what the ping of another looks like. The numbers come as text.
    pub fn report_ping(
        &mut self,
        player_index: usize,
        player_name: &str,
        avg: &str,
        min: &str,
        max: &str,
        dev: &str,
    )
        ensures
            final(self)@ == old(self)@.tell(
                player_index,
                player_name@ + " ping: avg "@ + avg@ + " ms"@,
            ).tell(
                player_index,
                "min "@ + min@ + " ms, max "@ + max@ + " ms, std.dev "@ + dev@,
            ),
    {
        let mut msg1 = concat(player_name, " ping: avg ");
        msg1.append(avg);
        msg1.append(" ms");
        let mut msg2 = concat("min ", min);
        msg2.append(" ms, max ");
        msg2.append(max);
        msg2.append(" ms, std.dev ");
        msg2.append(dev);
        self.add_directed_server_chat_message(msg1.as_str(), player_index);
        self.add_directed_server_chat_message(msg2.as_str(), player_index);
    }

    /// Lets a player see through their own eyes again.
    pub(crate) fn restore_view(&mut self, player_index: usize)
        ensures
            final(self)@ == old(self)@.after_restore_view(player_index),
    {
        reveal(ServerView::after_restore_view);
        let current: usize = match self.get_player(player_index) {
            Some(player) => player.view_player_index,
            None => {
                return ;
            },
        };
        if current != player_index {
            self.set_view(player_index, player_index);
            self.add_directed_server_chat_message("View has been restored", player_index);
        }
    }

    /// The player that a name stands for.
    pub(crate) fn find_named_player(&self, name: &str) -> (r: Option<usize>)
        ensures
            r == self@.named_player(name@),
    {
        reveal(ServerView::named_player);
        match self.player_exact_unique_match(name) {
            Some((i, _name)) => Some(i),
            None => {
                let matches = self.player_search(name);
                assert(list_view(matches@).len() == matches@.len());
                if matches.len() == 1 {
                    assert(list_view(matches@)[0].0 == matches@[0].0);
                    Some(matches[0].0)
                } else {
                    None
                }
            },
        }
    }

    /// Tells a player that a name does not stand for one player.
    pub(crate) fn tell_ambiguous(&mut self, player_index: usize, name: &str, hint: &str)
        ensures
            final(self)@ == old(self)@.after_ambiguous(player_index, name@, hint@),
    {
        reveal(ServerView::after_ambiguous);
        let matches = self.player_search(name);
        assert(list_view(matches@).len() == matches@.len());
        if matches.len() == 0 {
            self.add_directed_server_chat_message("No matches found", player_index);
        } else {
            self.add_directed_server_chat_message(hint, player_index);
            self.tell_list(player_index, &matches);
        }
    }
}

/// The latest round-trip times of a player.
fn ping_samples(player: &HQMConnectedPlayer) -> (samples: Vec<u64>)
    ensures
        samples@ == player@.last_ping,
{
    let mut samples: Vec<u64> = Vec::new();
    let mut i: usize = 0;
    while i < player.last_ping.len()
        invariant
            i <= player.last_ping@.len(),
            samples@ =~= player.last_ping@.take(i as int),
        decreases player.last_ping@.len() - i,
    {
        samples.push(player.last_ping[i]);
        i = i + 1;
    }
    assert(samples@ =~= player.last_ping@);
    samples
}

} // verus!
