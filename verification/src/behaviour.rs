//! What distinguishes one kind of server from another.
use crate::hqm_game::{GameView, HQMGame};
use crate::server::{HQMServer, ServerView};
use vstd::prelude::*;

verus! {

/// The rules of play that a server follows.
///
/// Each method comes with a relation that says what it does to the rules and to
/// the server. An implementation is free to choose it. What every implementation
/// has to keep is that a well-formed game stays well-formed and that no client
/// knows more messages than it was sent.
pub trait HQMServerBehaviour: Sized {
    /// What the simulation reports.
    type Event;

    /// What [`Self::before_tick`] does.
    open spec fn tick_begins(
        pre: Self,
        server_pre: ServerView,
        post: Self,
        server_post: ServerView,
    ) -> bool {
        true
    }

    /// What [`Self::after_tick`] does.
    open spec fn tick_ends(
        pre: Self,
        server_pre: ServerView,
        events: Seq<Self::Event>,
        post: Self,
        server_post: ServerView,
    ) -> bool {
        true
    }

    /// What [`Self::handle_command`] does.
    open spec fn command_handled(
        pre: Self,
        server_pre: ServerView,
        cmd: Seq<char>,
        arg: Seq<char>,
        player_index: usize,
        post: Self,
        server_post: ServerView,
    ) -> bool {
        true
    }

    /// What [`Self::create_game`] does.
    open spec fn game_created(pre: Self, post: Self, game: GameView) -> bool {
        true
    }

    /// What [`Self::before_player_exit`] does.
    open spec fn player_exits(
        pre: Self,
        server_pre: ServerView,
        player_index: usize,
        post: Self,
        server_post: ServerView,
    ) -> bool {
        true
    }

    /// What [`Self::after_player_join`] does.
    open spec fn player_joined(
        pre: Self,
        server_pre: ServerView,
        player_index: usize,
        post: Self,
        server_post: ServerView,
    ) -> bool {
        true
    }

    /// What [`Self::get_number_of_players`] returns.
    open spec fn number_of_players(self, n: u32) -> bool {
        true
    }

    /// Called before each simulation step.
    fn before_tick(&mut self, server: &mut HQMServer)
        ensures
            old(server)@.game.wf() ==> final(server)@.game.wf(),
            old(server)@.in_sync() ==> final(server)@.in_sync(),
            Self::tick_begins(*old(self), old(server)@, *final(self), final(server)@),
    ;

    /// Called after each simulation step.
    fn after_tick(&mut self, server: &mut HQMServer, events: &[Self::Event])
        ensures
            old(server)@.game.wf() ==> final(server)@.game.wf(),
            old(server)@.in_sync() ==> final(server)@.in_sync(),
            Self::tick_ends(*old(self), old(server)@, events@, *final(self), final(server)@),
    ;

    /// Called with each command that the server does not know.
    fn handle_command(&mut self, server: &mut HQMServer, cmd: &str, arg: &str, player_index: usize)
        ensures
            old(server)@.game.wf() ==> final(server)@.game.wf(),
            old(server)@.in_sync() ==> final(server)@.in_sync(),
            Self::command_handled(
                *old(self),
                old(server)@,
                cmd@,
                arg@,
                player_index,
                *final(self),
                final(server)@,
            ),
    ;

    /// Sets up a new game.
    fn create_game(&mut self) -> (game: HQMGame)
        ensures
            game@.wf(),
            Self::game_created(*old(self), *final(self), game@),
    ;

    /// Called before a player is removed. The player has to stay until then.
    fn before_player_exit(&mut self, server: &mut HQMServer, player_index: usize)
        ensures
            old(server)@.game.wf() ==> final(server)@.game.wf(),
            old(server)@.in_sync() ==> final(server)@.in_sync(),
            old(server)@.player(player_index) is Some ==> final(server)@.player(
                player_index,
            ) is Some,
            Self::player_exits(
                *old(self),
                old(server)@,
                player_index,
                *final(self),
                final(server)@,
            ),
    ;

    /// Called after a player has been added.
    fn after_player_join(&mut self, server: &mut HQMServer, player_index: usize)
        ensures
            old(server)@.game.wf() ==> final(server)@.game.wf(),
            old(server)@.in_sync() ==> final(server)@.in_sync(),
            Self::player_joined(
                *old(self),
                old(server)@,
                player_index,
                *final(self),
                final(server)@,
            ),
    ;

    /// The number of players in a team.
    fn get_number_of_players(&self) -> (n: u32)
        ensures
            self.number_of_players(n),
    ;
}

} // verus!
