//! A server for the ice hockey game HQM, as far as it can be told apart from
//! sockets, clocks and the movement of the objects on the ice.
//!
//! Clients send messages; [`server::HQMServer::handle_message`] takes them in
//! and says what is left to be done. Every hundredth of a second there is a
//! simulation step: [`server::HQMServer::start_tick`], then the movement of the
//! objects, then [`server::HQMServer::end_step`] and
//! [`server::HQMServer::send_step`], which builds up what the players are sent.
//!
//! Contracts speak of the contents of the server, [`server::ServerView`], and of
//! bit strings. What holds of the whole is stated in [`laws`],
//! [`readback`], [`invariants`], [`player_laws`] and [`game_laws`]. What each
//! operation is for is stated, in the words of [`terms`], in [`join_laws`],
//! [`chat_laws`], [`command_laws`], [`ice_laws`], [`step_laws`], [`sending_laws`]
//! and [`text_laws`].
pub mod answers;
pub mod behaviour;
pub mod bits;
pub mod chat_laws;
pub mod command_laws;
pub mod commands;
pub mod game_laws;
pub mod hqm_game;
pub mod hqm_parse;
pub mod ice_laws;
pub mod invariants;
pub mod join_laws;
pub mod laws;
pub mod player_laws;
pub mod players;
pub mod protocol;
pub mod readback;
pub mod registration;
pub mod search;
pub mod sending_laws;
pub mod server;
pub mod session;
pub mod step_laws;
pub mod terms;
pub mod text;
pub mod text_laws;
pub mod tick;
pub mod updates;
