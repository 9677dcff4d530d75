use hqm_server::behaviour::HQMServerBehaviour;
use hqm_server::commands::{HQMAdminCommand, HQMRequest};
use hqm_server::hqm_game::{
    HQMGame, HQMGameObject, HQMGameWorld, HQMMessage, HQMObjectPacket, HQMPlacement,
    HQMPlayerInput, HQMPuck, HQMPuckPacket, HQMRuleIndication, HQMSkaterHand, HQMSkaterPacket,
    HQMSpawnTable, HQMStartTime, HQMTeam,
};
use hqm_server::players::{
    HQMClientVersion, HQMConnectedPlayer, HQMIpAddr, HQMMuteStatus, HQMServerPlayerList,
    HQMSocketAddr, UNIT_MASS,
};
use hqm_server::hqm_parse::HQMMessageReader;
use hqm_server::protocol::get_packets;
use hqm_server::server::{HQMBanList, HQMServer, HQMServerConfiguration, HQMSpawnPoint};
use hqm_server::session::HQMReaction;
use hqm_server::tick::HQMTickPhase;
use hqm_server::updates::{replay_fits, send_updates, write_replay, UPDATE_BUFFER_SIZE};
use std::collections::VecDeque;

fn place(x: u32) -> HQMPlacement {
    let packet = HQMSkaterPacket {
        pos: (x, 2, 3),
        rot: (4, 5),
        stick_pos: (6, 7, 8),
        stick_rot: (9, 10),
        head_rot: 11,
        body_rot: 12,
    };
    HQMPlacement { pos: (x, 0, 0), rot: ((1, 0, 0), (0, 1, 0), (0, 0, 1)), packet }
}

fn blank_game() -> HQMGame {
    HQMGame {
        persistent_messages: Vec::new(),
        replay_data: Vec::new(),
        replay_msg_pos: 0,
        replay_last_packet: u32::MAX,
        replay_messages: Vec::new(),
        saved_ticks: VecDeque::with_capacity(192),
        packet: u32::MAX,
        game_step: u32::MAX,
        game_over: false,
        red_score: 0,
        blue_score: 0,
        time: 30000,
        time_break: 0,
        period: 0,
        is_intermission_goal: false,
        offside_indication: HQMRuleIndication::No,
        icing_indication: HQMRuleIndication::No,
        active: false,
        start_time: HQMStartTime { year: 2021, month: 6, day: 1, hour: 20, minute: 30, second: 0 },
        world: HQMGameWorld {
            objects: vec![HQMGameObject::Empty; 32],
            puck_slots: 1,
            spawns: HQMSpawnTable {
                red_center: place(1),
                red_bench: place(2),
                blue_center: place(3),
                blue_bench: place(4),
            },
        },
    }
}

struct Rules {
    log: Vec<String>,
    join_team: Option<HQMTeam>,
}

impl HQMServerBehaviour for Rules {
    type Event = u8;

    fn before_tick(&mut self, _server: &mut HQMServer) {
        self.log.push(String::from("before"));
    }

    fn after_tick(&mut self, _server: &mut HQMServer, events: &[u8]) {
        self.log.push(format!("after {}", events.len()));
    }

    fn handle_command(&mut self, _server: &mut HQMServer, cmd: &str, arg: &str, player_index: usize) {
        self.log.push(format!("{} {} {}", cmd, arg, player_index));
    }

    fn create_game(&mut self) -> HQMGame {
        self.log.push(String::from("create"));
        blank_game()
    }

    fn before_player_exit(&mut self, _server: &mut HQMServer, player_index: usize) {
        self.log.push(format!("exit {}", player_index));
    }

    fn after_player_join(&mut self, server: &mut HQMServer, player_index: usize) {
        self.log.push(format!("join {}", player_index));
        if let Some(team) = self.join_team {
            server.move_to_team_spawnpoint(player_index, team, HQMSpawnPoint::Bench);
        }
    }

    fn get_number_of_players(&self) -> u32 {
        5
    }
}

fn quiet_rules() -> Rules {
    Rules { log: Vec::new(), join_team: None }
}

fn new_server(player_max: usize, slots: usize) -> HQMServer {
    let config = HQMServerConfiguration {
        welcome: vec![String::from("Welcome"), String::from("Have fun")],
        password: String::from("secret"),
        player_max,
        replays_enabled: false,
        server_name: String::from("Test"),
    };
    HQMServer::new(config, blank_game(), slots)
}

fn addr(n: u16) -> HQMSocketAddr {
    HQMSocketAddr { ip: HQMIpAddr::V4(0x7f00_0001), port: n, flowinfo: 0, scope_id: 0 }
}

fn join_message(version: u8, name: &[u8]) -> Vec<u8> {
    let mut m = b"Hock\x02".to_vec();
    m.push(version);
    let mut padded = name.to_vec();
    padded.resize(32, 0);
    m.extend_from_slice(&padded);
    m
}

fn join(server: &mut HQMServer, rules: &mut Rules, n: u16, name: &str) {
    let m = join_message(55, name.as_bytes());
    let r = server.handle_message(addr(n), &m, 0, rules);
    assert!(matches!(r, HQMReaction::Nothing));
}

fn update_message(
    command: u8,
    game_id: u32,
    known_packet: u32,
    msgpos: u16,
    deltatime: Option<u32>,
    chat: Option<(u8, &[u8])>,
) -> Vec<u8> {
    let mut m = b"Hock".to_vec();
    m.push(command);
    m.extend_from_slice(&game_id.to_le_bytes());
    for word in 1u32..9 {
        m.extend_from_slice(&(word as f32).to_bits().to_le_bytes());
    }
    m.extend_from_slice(&16u32.to_le_bytes());
    if let Some(d) = deltatime {
        m.extend_from_slice(&d.to_le_bytes());
    }
    m.extend_from_slice(&known_packet.to_le_bytes());
    m.extend_from_slice(&msgpos.to_le_bytes());
    match chat {
        Some((rep, text)) => {
            let n = text.len() as u16;
            let head = 1 | (rep as u16) << 1 | n << 4;
            m.extend_from_slice(&head.to_le_bytes());
            m.extend_from_slice(text);
        }
        None => m.push(0),
    }
    m
}

fn say(server: &mut HQMServer, rules: &mut Rules, n: u16, rep: u8, text: &str) -> HQMReaction {
    let m = update_message(4, 1, u32::MAX, 0, None, Some((rep, text.as_bytes())));
    server.handle_message(addr(n), &m, 0, rules)
}

fn texts(server: &HQMServer, i: usize) -> Vec<String> {
    let mut v = Vec::new();
    for m in server.players.get(i).unwrap().messages.iter() {
        v.push(match &**m {
            HQMMessage::Chat { player_index: None, message } => message.clone(),
            HQMMessage::Chat { player_index: Some(p), message } => format!("<{}> {}", p, message),
            HQMMessage::Goal { .. } => String::from("goal"),
            HQMMessage::PlayerUpdate { player_name, object, player_index, in_server } => {
                match (object, in_server) {
                    (_, false) => format!("-{} {}", player_index, player_name),
                    (None, true) => format!("+{} {}", player_index, player_name),
                    (Some((slot, team)), true) => {
                        format!("+{} {} at {} for {}", player_index, player_name, slot, team.get_num())
                    }
                }
            }
        });
    }
    v
}

fn last_text(server: &HQMServer, i: usize) -> String {
    texts(server, i).pop().unwrap()
}

#[test]
fn newcomers_are_told_everything() {
    let mut server = new_server(10, 4);
    let mut rules = quiet_rules();
    join(&mut server, &mut rules, 1, "Anna");
    assert_eq!(texts(&server, 0), vec!["+0 Anna", "Welcome", "Have fun", "Anna joined"]);
    server.add_goal_message(HQMTeam::Red, Some(0), None);
    join(&mut server, &mut rules, 2, " Bo ");
    assert_eq!(
        texts(&server, 0),
        vec!["+0 Anna", "Welcome", "Have fun", "Anna joined", "goal", "+1 Bo", "Bo joined"]
    );
    assert_eq!(texts(&server, 1), vec!["+0 Anna", "goal", "+1 Bo", "Welcome", "Have fun", "Bo joined"]);
    assert_eq!(server.game.persistent_messages.len(), 3);
    assert_eq!(server.game.replay_messages.len(), 5);
    assert_eq!(rules.log, vec!["join 0", "join 1"]);
    assert_eq!(server.player_count(), 2);
    assert_eq!(server.find_player_slot(addr(2)), Some(1));
    assert_eq!(server.find_player_slot(addr(3)), None);
    assert_eq!(server.find_empty_player_slot(), Some(2));
}

#[test]
fn a_new_player_starts_with_nothing() {
    let p = HQMConnectedPlayer::new(3, String::from("Anna"), addr(9), Vec::new());
    assert_eq!(p.player_name, "Anna");
    assert_eq!(p.addr, addr(9));
    assert_eq!(p.client_version, HQMClientVersion::Vanilla);
    assert_eq!(p.game_id, u32::MAX);
    assert_eq!(p.known_packet, u32::MAX);
    assert_eq!(p.known_msgpos, 0);
    assert_eq!(p.chat_rep, None);
    assert_eq!(p.inactivity, 0);
    assert!(!p.is_admin);
    assert_eq!(p.is_muted, HQMMuteStatus::NotMuted);
    assert_eq!(p.hand, HQMSkaterHand::Right);
    assert_eq!(p.mass, 1.0f32.to_bits());
    assert_eq!(p.mass, UNIT_MASS);
    assert_eq!(p.view_player_index, 3);
    assert!(p.last_ping.is_empty());
    assert_eq!(p.input.keys, 0);
    assert_eq!(p.input.stick, (0, 0));
}

#[test]
fn full_server_refuses() {
    let mut server = new_server(1, 4);
    let mut rules = quiet_rules();
    join(&mut server, &mut rules, 1, "Anna");
    join(&mut server, &mut rules, 2, "Bo");
    assert_eq!(server.player_count(), 1);
    assert_eq!(texts(&server, 0).len(), 4);
    assert_eq!(rules.log, vec!["join 0"]);
}

#[test]
fn server_without_free_slot_refuses() {
    let mut server = new_server(10, 1);
    let mut rules = quiet_rules();
    join(&mut server, &mut rules, 1, "Anna");
    join(&mut server, &mut rules, 2, "Bo");
    assert_eq!(server.player_count(), 1);
    assert_eq!(texts(&server, 0).len(), 4);
}

#[test]
fn other_protocol_versions_are_refused() {
    let mut server = new_server(10, 4);
    let mut rules = quiet_rules();
    server.handle_message(addr(1), &join_message(54, b"Anna"), 0, &mut rules);
    assert_eq!(server.player_count(), 0);
}

#[test]
fn nobody_joins_twice() {
    let mut server = new_server(10, 4);
    let mut rules = quiet_rules();
    join(&mut server, &mut rules, 1, "Anna");
    join(&mut server, &mut rules, 1, "Anna");
    assert_eq!(server.player_count(), 1);
}

#[test]
fn banned_addresses_are_refused() {
    let mut server = new_server(10, 4);
    let mut rules = quiet_rules();
    server.ban_list.insert(addr(1).ip);
    join(&mut server, &mut rules, 1, "Anna");
    assert_eq!(server.player_count(), 0);
    let other = HQMSocketAddr { ip: HQMIpAddr::V6(0x7f00_0001), port: 1, flowinfo: 0, scope_id: 0 };
    server.handle_message(other, &join_message(55, b"Anna"), 0, &mut rules);
    assert_eq!(server.player_count(), 1);
    server.ban_list.clear();
    join(&mut server, &mut rules, 1, "Bo");
    assert_eq!(server.player_count(), 2);
}

#[test]
fn ban_list_tells_addresses_apart() {
    let mut list = HQMBanList::new();
    assert!(!list.contains(&HQMIpAddr::V4(7)));
    list.insert(HQMIpAddr::V4(7));
    list.insert(HQMIpAddr::V6(8));
    assert!(list.contains(&HQMIpAddr::V4(7)));
    assert!(!list.contains(&HQMIpAddr::V6(7)));
    assert!(list.contains(&HQMIpAddr::V6(8)));
    list.clear();
    assert!(!list.contains(&HQMIpAddr::V4(7)));
}

#[test]
fn joining_can_be_disabled() {
    let mut server = new_server(10, 4);
    let mut rules = quiet_rules();
    server.allow_join = false;
    join(&mut server, &mut rules, 1, "Anna");
    assert_eq!(server.player_count(), 0);
}

#[test]
fn names_that_are_not_text_are_refused() {
    let mut server = new_server(10, 4);
    let mut rules = quiet_rules();
    server.handle_message(addr(1), &join_message(55, b"\xff\xfe"), 0, &mut rules);
    assert_eq!(server.player_count(), 0);
    server.handle_message(addr(1), &join_message(55, b"  "), 0, &mut rules);
    assert_eq!(server.players.get(0).unwrap().player_name, "Noname");
}

#[test]
fn foreign_messages_are_ignored() {
    let mut server = new_server(10, 4);
    let mut rules = quiet_rules();
    let mut m = join_message(55, b"Anna");
    m[0] = b'h';
    assert!(matches!(server.handle_message(addr(1), &m, 0, &mut rules), HQMReaction::Nothing));
    let r = server.handle_message(addr(1), b"Hock\x03", 0, &mut rules);
    assert!(matches!(r, HQMReaction::Nothing));
    let r = server.handle_message(addr(1), b"", 0, &mut rules);
    assert!(matches!(r, HQMReaction::Nothing));
    assert_eq!(server.player_count(), 0);
}

#[test]
fn information_is_sent_back() {
    let mut server = new_server(10, 4);
    let mut rules = quiet_rules();
    join(&mut server, &mut rules, 1, "Anna");
    join(&mut server, &mut rules, 2, "Bo");
    let mut m = b"Hock\x00\x37".to_vec();
    m.extend_from_slice(&0xdead_beefu32.to_le_bytes());
    match server.handle_message(addr(9), &m, 0, &mut rules) {
        HQMReaction::Reply(bytes) => {
            let mut expected =
                vec![72, 111, 99, 107, 1, 55, 239, 190, 173, 222, 2, 84, 84, 101, 115, 116];
            expected.extend_from_slice(&[0u8; 28]);
            assert_eq!(bytes, expected);
        }
        _ => panic!("no reply"),
    }
}

#[test]
fn leaving_frees_the_slot() {
    let mut server = new_server(10, 4);
    let mut rules = quiet_rules();
    join(&mut server, &mut rules, 1, "Anna");
    join(&mut server, &mut rules, 2, "Bo");
    server.move_to_team_spawnpoint(0, HQMTeam::Red, HQMSpawnPoint::Center);
    server.handle_message(addr(1), b"Hock\x07", 0, &mut rules);
    assert!(server.players.get(0).is_none());
    assert_eq!(server.game.world.find_skater(0), None);
    assert_eq!(server.find_player_slot(addr(1)), None);
    assert_eq!(server.find_empty_player_slot(), Some(0));
    assert_eq!(rules.log, vec!["join 0", "join 1", "exit 0"]);
    let told = texts(&server, 1);
    assert_eq!(&told[told.len() - 2..], &["-0 Anna", "Anna exited"]);
    server.handle_message(addr(1), b"Hock\x07", 0, &mut rules);
    assert_eq!(server.player_count(), 1);
}

#[test]
fn last_administrator_opens_the_server() {
    let mut server = new_server(10, 4);
    let mut rules = quiet_rules();
    for n in 1u16..4 {
        join(&mut server, &mut rules, n, "X");
    }
    server.players.get_mut(0).unwrap().is_admin = true;
    server.players.get_mut(1).unwrap().is_admin = true;
    server.allow_join = false;
    server.remove_player(2);
    assert!(!server.allow_join);
    server.remove_player(0);
    assert!(!server.allow_join);
    server.remove_player(1);
    assert!(server.allow_join);
    server.allow_join = false;
    server.remove_player(1);
    assert!(!server.allow_join);
}

#[test]
fn players_enter_and_leave_the_ice() {
    let mut server = new_server(10, 4);
    let mut rules = quiet_rules();
    join(&mut server, &mut rules, 1, "Anna");
    server.players.get_mut(0).unwrap().hand = HQMSkaterHand::Left;
    server.game.world.objects[1] = HQMGameObject::Puck(HQMPuck {
        packet: HQMPuckPacket { pos: (0, 0, 0), rot: (0, 0) },
    });
    assert!(!server.move_to_spectator(0));
    assert!(server.move_to_team_spawnpoint(0, HQMTeam::Blue, HQMSpawnPoint::Bench));
    assert_eq!(server.game.world.find_skater(0), Some(2));
    assert_eq!(last_text(&server, 0), "+0 Anna at 2 for 1");
    match server.game.world.objects[2] {
        HQMGameObject::Player(skater) => {
            assert_eq!(skater.start.pos, (4, 0, 0));
            assert_eq!(skater.hand, HQMSkaterHand::Left);
            assert_eq!(skater.team, HQMTeam::Blue);
            assert_eq!(skater.mass, UNIT_MASS);
        }
        _ => panic!("no skater"),
    }
    assert!(!server.move_to_team(0, HQMTeam::Red, place(77)));
    assert_eq!(last_text(&server, 0), "+0 Anna at 2 for 0");
    match server.game.world.objects[2] {
        HQMGameObject::Player(skater) => assert_eq!(skater.get_packet().pos, (77, 2, 3)),
        _ => panic!("no skater"),
    }
    assert!(server.move_to_spectator(0));
    assert_eq!(server.game.world.find_skater(0), None);
    assert_eq!(last_text(&server, 0), "+0 Anna");
    assert!(!server.move_to_team(3, HQMTeam::Red, place(1)));
}

#[test]
fn the_four_places_of_entry() {
    let cases = [
        (HQMTeam::Red, HQMSpawnPoint::Center, 1),
        (HQMTeam::Red, HQMSpawnPoint::Bench, 2),
        (HQMTeam::Blue, HQMSpawnPoint::Center, 3),
        (HQMTeam::Blue, HQMSpawnPoint::Bench, 4),
    ];
    for (team, point, x) in cases {
        let mut server = new_server(10, 4);
        let mut rules = quiet_rules();
        join(&mut server, &mut rules, 1, "Anna");
        assert!(server.move_to_team_spawnpoint(0, team, point));
        match server.game.world.objects[1] {
            HQMGameObject::Player(skater) => assert_eq!(skater.start.pos, (x, 0, 0)),
            _ => panic!("no skater"),
        }
    }
}

#[test]
fn full_ice_takes_nobody() {
    let mut server = new_server(10, 4);
    let mut rules = quiet_rules();
    join(&mut server, &mut rules, 1, "Anna");
    server.game.world.puck_slots = 32;
    assert!(!server.move_to_team_spawnpoint(0, HQMTeam::Red, HQMSpawnPoint::Center));
    assert_eq!(last_text(&server, 0), "Anna joined");
}

#[test]
fn hand_changes_between_periods() {
    let mut server = new_server(10, 4);
    let mut rules = quiet_rules();
    join(&mut server, &mut rules, 1, "Anna");
    server.move_to_team_spawnpoint(0, HQMTeam::Red, HQMSpawnPoint::Center);
    say(&mut server, &mut rules, 1, 1, "/lefty");
    assert_eq!(server.players.get(0).unwrap().hand, HQMSkaterHand::Left);
    assert!(matches!(server.game.world.objects[1], HQMGameObject::Player(s) if s.hand == HQMSkaterHand::Left));
    server.game.period = 1;
    say(&mut server, &mut rules, 1, 2, "/righty");
    assert_eq!(server.players.get(0).unwrap().hand, HQMSkaterHand::Right);
    assert!(matches!(server.game.world.objects[1], HQMGameObject::Player(s) if s.hand == HQMSkaterHand::Left));
    assert_eq!(last_text(&server, 0), "Stick hand will change after next intermission");
}

#[test]
fn chat_reaches_everybody() {
    let mut server = new_server(10, 4);
    let mut rules = quiet_rules();
    join(&mut server, &mut rules, 1, "Anna");
    join(&mut server, &mut rules, 2, "Bo");
    let persistent = server.game.persistent_messages.len();
    say(&mut server, &mut rules, 2, 0, "hello");
    assert_eq!(last_text(&server, 0), "<1> hello");
    assert_eq!(last_text(&server, 1), "<1> hello");
    assert_eq!(server.game.persistent_messages.len(), persistent);
    let n = texts(&server, 0).len();
    say(&mut server, &mut rules, 2, 0, "hello");
    assert_eq!(texts(&server, 0).len(), n);
    say(&mut server, &mut rules, 2, 1, "again");
    assert_eq!(last_text(&server, 0), "<1> again");
}

#[test]
fn muted_players_are_not_heard() {
    let mut server = new_server(10, 4);
    let mut rules = quiet_rules();
    join(&mut server, &mut rules, 1, "Anna");
    join(&mut server, &mut rules, 2, "Bo");
    server.players.get_mut(0).unwrap().is_muted = HQMMuteStatus::Muted;
    say(&mut server, &mut rules, 1, 0, "one");
    assert_eq!(last_text(&server, 0), "Bo joined");
    server.players.get_mut(0).unwrap().is_muted = HQMMuteStatus::ShadowMuted;
    say(&mut server, &mut rules, 1, 1, "two");
    assert_eq!(last_text(&server, 0), "<0> two");
    assert_eq!(last_text(&server, 1), "Bo joined");
    server.players.get_mut(0).unwrap().is_muted = HQMMuteStatus::NotMuted;
    server.is_muted = true;
    say(&mut server, &mut rules, 1, 2, "three");
    assert_eq!(last_text(&server, 0), "<0> two");
    server.is_muted = false;
    say(&mut server, &mut rules, 1, 3, "four");
    assert_eq!(last_text(&server, 1), "<0> four");
}

#[test]
fn chat_has_to_be_text() {
    let mut server = new_server(10, 4);
    let mut rules = quiet_rules();
    join(&mut server, &mut rules, 1, "Anna");
    let m = update_message(4, 1, 0, 0, None, Some((1, b"\xc3")));
    server.handle_message(addr(1), &m, 0, &mut rules);
    assert_eq!(last_text(&server, 0), "Anna joined");
    assert_eq!(server.players.get(0).unwrap().chat_rep, Some(1));
}

#[test]
fn directed_messages_are_private() {
    let mut server = new_server(10, 4);
    let mut rules = quiet_rules();
    join(&mut server, &mut rules, 1, "Anna");
    join(&mut server, &mut rules, 2, "Bo");
    server.add_directed_user_chat_message("psst", 1, 0);
    assert_eq!(last_text(&server, 1), "<0> psst");
    assert_eq!(last_text(&server, 0), "Bo joined");
    server.add_directed_server_chat_message("note", 0);
    assert_eq!(last_text(&server, 0), "note");
    server.add_directed_chat_message("nobody", 3, None);
    server.add_directed_chat_message("nowhere", 99, None);
    assert_eq!(server.game.replay_messages.len(), 4);
    let player = server.players.get_mut(0).unwrap();
    player.add_directed_user_chat_message("a", 1);
    player.add_directed_server_chat_message("b");
    assert_eq!(&texts(&server, 0)[6..], &["note", "<1> a", "b"]);
}

#[test]
fn updates_are_taken_in() {
    let mut server = new_server(10, 4);
    let mut rules = quiet_rules();
    join(&mut server, &mut rules, 1, "Anna");
    server.players.get_mut(0).unwrap().inactivity = 7;
    let m = update_message(0x10, 1, 5, 300, Some(99), None);
    server.handle_message(addr(1), &m, 0, &mut rules);
    let p = server.players.get(0).unwrap();
    assert_eq!(p.client_version, HQMClientVersion::PingRules);
    assert_eq!(p.game_id, 1);
    assert_eq!(p.known_packet, 5);
    assert_eq!(p.known_msgpos, 300);
    assert_eq!(p.deltatime, 99);
    assert_eq!(p.inactivity, 0);
    assert_eq!(p.chat_rep, None);
    assert_eq!(p.input.stick_angle, 1.0f32.to_bits());
    assert_eq!(p.input.turn, 2.0f32.to_bits());
    assert_eq!(p.input.unknown, 3.0f32.to_bits());
    assert_eq!(p.input.fwbw, 4.0f32.to_bits());
    assert_eq!(p.input.stick, (5.0f32.to_bits(), 6.0f32.to_bits()));
    assert_eq!(p.input.head_rot, 7.0f32.to_bits());
    assert_eq!(p.input.body_rot, 8.0f32.to_bits());
    assert_eq!(p.input.keys, 16);
    let m = update_message(4, 2, 6, 0, None, None);
    server.handle_message(addr(1), &m, 0, &mut rules);
    let p = server.players.get(0).unwrap();
    assert_eq!(p.client_version, HQMClientVersion::Vanilla);
    assert_eq!(p.deltatime, 99);
    assert_eq!(p.game_id, 2);
    server.handle_message(addr(5), &m, 0, &mut rules);
    assert_eq!(server.player_count(), 1);
}

#[test]
fn administration_is_left_to_the_caller() {
    let mut server = new_server(10, 4);
    let mut rules = quiet_rules();
    join(&mut server, &mut rules, 1, "Anna");
    let cases = [
        ("/enablejoin", Some("SetAllowJoin(true)")),
        ("/disablejoin", Some("SetAllowJoin(false)")),
        ("/mute 3", Some("Mute(3)")),
        ("/mute 4", None),
        ("/mute x", None),
        ("/unmute +1", Some("Unmute(1)")),
        ("/mutechat", Some("MuteChat")),
        ("/unmutechat", Some("UnmuteChat")),
        ("/fs 0", Some("ForceOffIce(0)")),
        ("/kick 2", Some("Kick { player_index: 2, ban: false }")),
        ("/ban 2", Some("Kick { player_index: 2, ban: true }")),
        ("/kickall An", Some("KickAllMatching { name: \"An\", ban: false }")),
        ("/banall a b", Some("KickAllMatching { name: \"a b\", ban: true }")),
        ("/clearbans", Some("ClearBans")),
        ("/admin secret", Some("Login { password: \"secret\" }")),
    ];
    for (line, expected) in cases {
        let request = server.process_message(line.as_bytes().to_vec(), 0, &mut rules);
        match (request, expected) {
            (Some(HQMRequest::Admin { player_index, command }), Some(text)) => {
                assert_eq!(player_index, 0);
                assert_eq!(format!("{:?}", command), text);
            }
            (None, None) => {}
            _ => panic!("{}", line),
        }
    }
    assert_eq!(rules.log, vec!["join 0"]);
    let r = say(&mut server, &mut rules, 1, 1, "/clearbans");
    assert!(matches!(
        r,
        HQMReaction::Request(HQMRequest::Admin { player_index: 0, command: HQMAdminCommand::ClearBans })
    ));
}

#[test]
fn unknown_commands_go_to_the_rules() {
    let mut server = new_server(10, 4);
    let mut rules = quiet_rules();
    join(&mut server, &mut rules, 1, "Anna");
    say(&mut server, &mut rules, 1, 1, "/sp right wing");
    say(&mut server, &mut rules, 1, 2, "/LIST");
    say(&mut server, &mut rules, 1, 3, "/shadowmute 0");
    assert_eq!(rules.log, vec!["join 0", "sp right wing 0", "LIST  0", "shadowmute 0 0"]);
    assert_eq!(last_text(&server, 0), "Anna joined");
}

fn crowd() -> (HQMServer, Rules) {
    let mut server = new_server(20, 12);
    let mut rules = quiet_rules();
    for (k, name) in ["Anna", "Bob", "hanna", "ANNE", "Bob", "Susanna", "Joanna", "Diana"].iter().enumerate() {
        join(&mut server, &mut rules, k as u16 + 1, name);
    }
    server.remove_player(4);
    (server, rules)
}

fn command(server: &mut HQMServer, rules: &mut Rules, line: &str) -> Vec<String> {
    let n = texts(server, 0).len();
    let r = server.process_message(line.as_bytes().to_vec(), 0, rules);
    assert!(r.is_none());
    texts(server, 0)[n..].to_vec()
}

#[test]
fn players_are_listed() {
    let (mut server, mut rules) = crowd();
    assert_eq!(
        command(&mut server, &mut rules, "/list"),
        vec!["0: Anna", "1: Bob", "2: hanna", "3: ANNE", "5: Susanna"]
    );
    assert_eq!(
        command(&mut server, &mut rules, "/list 4"),
        vec!["5: Susanna", "6: Joanna", "7: Diana"]
    );
    assert!(command(&mut server, &mut rules, "/list 99").is_empty());
    assert!(command(&mut server, &mut rules, "/list x").is_empty());
}

#[test]
fn players_are_searched() {
    let (mut server, mut rules) = crowd();
    assert_eq!(
        command(&mut server, &mut rules, "/search aNN"),
        vec!["0: Anna", "2: hanna", "3: ANNE", "5: Susanna", "6: Joanna"]
    );
    assert_eq!(command(&mut server, &mut rules, "/search zz"), vec!["No matches found"]);
    let found = server.player_search("IAN");
    assert_eq!(found, vec![(7, String::from("Diana"))]);
    assert_eq!(server.player_search("").len(), 5);
}

#[test]
fn search_knows_letters_outside_ascii() {
    let mut server = new_server(10, 4);
    let mut rules = quiet_rules();
    join(&mut server, &mut rules, 1, "\u{c5}SA");
    assert_eq!(server.player_search("\u{e5}sa").len(), 1);
    assert_eq!(server.player_search("asa").len(), 0);
}

#[test]
fn search_goes_by_the_given_texts() {
    let (server, _rules) = crowd();
    let mut lowered = vec![String::new(); 12];
    lowered[1] = String::from("xay");
    lowered[3] = String::from("ay");
    lowered[4] = String::from("ay");
    let found = server.player_search_lowered(&lowered, "ay");
    assert_eq!(found, vec![(1, String::from("Bob")), (3, String::from("ANNE"))]);
}

#[test]
fn names_match_if_they_are_unique() {
    let (mut server, mut rules) = crowd();
    assert_eq!(server.player_exact_unique_match("Bob"), Some((1, String::from("Bob"))));
    assert_eq!(server.player_exact_unique_match("bob"), None);
    join(&mut server, &mut rules, 30, "Bob");
    assert_eq!(server.player_exact_unique_match("Bob"), None);
}

#[test]
fn spectators_choose_what_they_see() {
    let (mut server, mut rules) = crowd();
    assert_eq!(command(&mut server, &mut rules, "/view 1"), vec!["You are now viewing Bob"]);
    assert_eq!(server.players.get(0).unwrap().view_player_index, 1);
    assert!(command(&mut server, &mut rules, "/view 1").is_empty());
    assert_eq!(command(&mut server, &mut rules, "/view 0"), vec!["View has been restored"]);
    assert_eq!(command(&mut server, &mut rules, "/view 4"), vec!["No player with this ID exists"]);
    assert!(command(&mut server, &mut rules, "/view 12").is_empty());
    assert_eq!(command(&mut server, &mut rules, "/views diana"), vec!["You are now viewing Diana"]);
    assert_eq!(command(&mut server, &mut rules, "/restoreview"), vec!["View has been restored"]);
    assert!(command(&mut server, &mut rules, "/restoreview").is_empty());
    assert_eq!(command(&mut server, &mut rules, "/views zz"), vec!["No matches found"]);
    assert_eq!(
        command(&mut server, &mut rules, "/views ann"),
        vec![
            "Multiple matches found, use /view X",
            "0: Anna",
            "2: hanna",
            "3: ANNE",
            "5: Susanna",
            "6: Joanna",
        ]
    );
    server.move_to_team_spawnpoint(0, HQMTeam::Red, HQMSpawnPoint::Center);
    assert_eq!(
        command(&mut server, &mut rules, "/view 1"),
        vec!["You must be a spectator to change view"]
    );
    assert_eq!(server.players.get(0).unwrap().view_player_index, 0);
}

#[test]
fn entering_the_ice_restores_the_view() {
    let (mut server, mut rules) = crowd();
    command(&mut server, &mut rules, "/view 1");
    server.move_to_team_spawnpoint(0, HQMTeam::Red, HQMSpawnPoint::Center);
    assert_eq!(server.players.get(0).unwrap().view_player_index, 0);
}

#[test]
fn pings_are_asked_for() {
    let (mut server, mut rules) = crowd();
    assert_eq!(
        command(&mut server, &mut rules, "/ping 1"),
        vec!["No ping values found for Bob"]
    );
    assert_eq!(command(&mut server, &mut rules, "/ping 4"), vec!["No player with this ID exists"]);
    assert!(command(&mut server, &mut rules, "/ping 12").is_empty());
    assert_eq!(command(&mut server, &mut rules, "/pings zz"), vec!["No matches found"]);
    assert_eq!(
        command(&mut server, &mut rules, "/pings nna")[0],
        "Multiple matches found, use /ping X"
    );
    server.players.get_mut(1).unwrap().last_ping.push_front(30_000_000);
    server.players.get_mut(1).unwrap().last_ping.push_front(50_000_000);
    match server.process_message(b"/pings bob".to_vec(), 0, &mut rules) {
        Some(HQMRequest::PingStatistics { player_index, player_name, samples }) => {
            assert_eq!(player_index, 0);
            assert_eq!(player_name, "Bob");
            assert_eq!(samples, vec![50_000_000, 30_000_000]);
        }
        _ => panic!("no request"),
    }
    server.report_ping(0, "Bob", "40", "30", "50", "10.0");
    let told = texts(&server, 0);
    assert_eq!(
        &told[told.len() - 2..],
        &["Bob ping: avg 40 ms", "min 30 ms, max 50 ms, std.dev 10.0"]
    );
}

fn step(server: &mut HQMServer, rules: &mut Rules, now: u64) {
    assert!(matches!(server.start_tick(rules), HQMTickPhase::Simulate(_)));
    server.end_step(&[1u8, 2u8], now, rules);
}

#[test]
fn round_trip_times_are_measured() {
    let mut server = new_server(10, 4);
    let mut rules = quiet_rules();
    join(&mut server, &mut rules, 1, "Anna");
    step(&mut server, &mut rules, 1000);
    step(&mut server, &mut rules, 2000);
    step(&mut server, &mut rules, 3000);
    assert_eq!(server.game.packet, 2);
    let pings = |s: &HQMServer| -> Vec<u64> {
        s.players.get(0).unwrap().last_ping.iter().copied().collect()
    };
    server.handle_message(addr(1), &update_message(4, 1, 0, 0, None, None), 3500, &mut rules);
    assert!(pings(&server).is_empty());
    server.handle_message(addr(1), &update_message(4, 1, 1, 0, None, None), 3600, &mut rules);
    assert_eq!(pings(&server), vec![1600]);
    server.handle_message(addr(1), &update_message(4, 1, 1, 0, None, None), 3700, &mut rules);
    assert_eq!(pings(&server), vec![1600]);
    server.handle_message(addr(1), &update_message(4, 1, 2, 0, None, None), 3001, &mut rules);
    assert_eq!(pings(&server), vec![1, 1600]);
    server.handle_message(addr(1), &update_message(4, 1, 3, 0, None, None), 9000, &mut rules);
    assert_eq!(pings(&server), vec![1, 1600]);
}

#[test]
fn old_round_trip_times_are_forgotten() {
    let mut server = new_server(10, 4);
    let mut rules = quiet_rules();
    join(&mut server, &mut rules, 1, "Anna");
    step(&mut server, &mut rules, 0);
    for k in 0u64..100 {
        server.players.get_mut(0).unwrap().last_ping.push_back(k);
    }
    server.players.get_mut(0).unwrap().game_id = 1;
    server.players.get_mut(0).unwrap().known_packet = 0;
    server.game.packet = 1;
    server.handle_message(addr(1), &update_message(4, 1, 1, 0, None, None), 777, &mut rules);
    let p = &server.players.get(0).unwrap().last_ping;
    assert_eq!(p.len(), 100);
    assert_eq!(p[0], 777);
    assert_eq!(p[1], 0);
    assert_eq!(p[99], 98);
}

#[test]
fn steps_are_counted_and_remembered() {
    let mut server = new_server(10, 4);
    let mut rules = quiet_rules();
    join(&mut server, &mut rules, 1, "Anna");
    step(&mut server, &mut rules, 10);
    assert!(server.game.active);
    assert_eq!(server.game.packet, 0);
    assert_eq!(server.game.game_step, 0);
    server.move_to_team_spawnpoint(0, HQMTeam::Red, HQMSpawnPoint::Center);
    step(&mut server, &mut rules, 20);
    assert_eq!(server.game.packet, 1);
    assert_eq!(server.game.saved_ticks.len(), 2);
    assert_eq!(server.game.saved_ticks[0].time, 20);
    assert_eq!(server.game.saved_ticks[1].time, 10);
    assert_eq!(server.game.saved_ticks[1].packets[1], HQMObjectPacket::Empty);
    assert!(matches!(server.game.saved_ticks[0].packets[1], HQMObjectPacket::Skater(s) if s.pos == (1, 2, 3)));
    assert_eq!(rules.log, vec!["join 0", "before", "after 2", "before", "after 2"]);
    let capacity = server.game.saved_ticks.capacity();
    for k in 0..capacity + 5 {
        step(&mut server, &mut rules, k as u64);
        server.players.get_mut(0).unwrap().inactivity = 0;
    }
    assert_eq!(server.game.saved_ticks.len(), capacity);
}

#[test]
fn only_so_many_steps_are_kept() {
    let mut server = new_server(10, 4);
    server.save_tick(1, 3);
    server.save_tick(2, 3);
    server.save_tick(3, 3);
    server.save_tick(4, 3);
    let times: Vec<u64> = server.game.saved_ticks.iter().map(|t| t.time).collect();
    assert_eq!(times, vec![4, 3, 2]);
    server.save_tick(5, 1);
    assert_eq!(server.game.saved_ticks.len(), 1);
    server.save_tick(6, 0);
    assert_eq!(server.game.saved_ticks.len(), 1);
    assert_eq!(server.game.packet, 5);
    server.game.packet = u32::MAX;
    server.save_tick(7, 2);
    assert_eq!(server.game.packet, 0);
}

#[test]
fn skaters_get_the_input_of_their_players() {
    let mut server = new_server(10, 4);
    let mut rules = quiet_rules();
    join(&mut server, &mut rules, 1, "Anna");
    join(&mut server, &mut rules, 2, "Bo");
    server.move_to_team_spawnpoint(1, HQMTeam::Red, HQMSpawnPoint::Center);
    server.players.get_mut(1).unwrap().input =
        HQMPlayerInput { keys: 42, ..HQMPlayerInput::default() };
    assert!(matches!(server.start_tick(&mut rules), HQMTickPhase::Simulate(_)));
    match server.game.world.objects[1] {
        HQMGameObject::Player(skater) => assert_eq!(skater.input.keys, 42),
        _ => panic!("no skater"),
    }
}

#[test]
fn silent_players_time_out() {
    let mut server = new_server(10, 4);
    let mut rules = quiet_rules();
    join(&mut server, &mut rules, 1, "Anna");
    join(&mut server, &mut rules, 2, "Bo");
    join(&mut server, &mut rules, 3, "Cy");
    server.players.get_mut(0).unwrap().inactivity = 500;
    server.players.get_mut(1).unwrap().inactivity = 499;
    server.players.get_mut(2).unwrap().inactivity = 600;
    rules.log.clear();
    match server.start_tick(&mut rules) {
        HQMTickPhase::Simulate(list) => {
            assert_eq!(list, vec![(0, String::from("Anna")), (2, String::from("Cy"))]);
        }
        _ => panic!("nobody there"),
    }
    server.end_step(&[1u8, 2u8], 0, &mut rules);
    assert!(server.players.get(0).is_none());
    assert_eq!(server.players.get(1).unwrap().inactivity, 500);
    assert!(server.players.get(2).is_none());
    assert_eq!(rules.log, vec!["exit 0", "exit 2", "before", "after 2"]);
    let told = texts(&server, 1);
    assert_eq!(
        &told[told.len() - 4..],
        &["-0 Anna", "-2 Cy", "Anna timed out", "Cy timed out"]
    );
}

#[test]
fn abandoned_games_are_replaced() {
    let mut server = new_server(10, 4);
    let mut rules = quiet_rules();
    assert!(matches!(server.start_tick(&mut rules), HQMTickPhase::Idle));
    join(&mut server, &mut rules, 1, "Anna");
    step(&mut server, &mut rules, 0);
    server.handle_message(addr(1), b"Hock\x07", 0, &mut rules);
    server.allow_join = false;
    assert!(matches!(server.start_tick(&mut rules), HQMTickPhase::Abandoned(None)));
    assert_eq!(server.game_id, 2);
    assert!(server.allow_join);
    assert!(!server.game.active);
    assert_eq!(rules.log.last().unwrap(), "create");
    assert!(matches!(server.start_tick(&mut rules), HQMTickPhase::Idle));
}

#[test]
fn a_new_game_starts_everybody_equal() {
    let mut server = new_server(10, 4);
    let mut rules = quiet_rules();
    join(&mut server, &mut rules, 1, "Anna");
    join(&mut server, &mut rules, 2, "Bo");
    server.add_directed_server_chat_message("private", 0);
    server.players.get_mut(0).unwrap().known_msgpos = 3;
    server.players.get_mut(0).unwrap().known_packet = 9;
    server.game.period = 1;
    assert!(server.new_game(blank_game()).is_none());
    assert_eq!(server.game_id, 2);
    assert_eq!(texts(&server, 0), vec!["+0 Anna", "+1 Bo"]);
    assert_eq!(texts(&server, 1), vec!["+0 Anna", "+1 Bo"]);
    assert_eq!(server.game.persistent_messages.len(), 2);
    let p = server.players.get(0).unwrap();
    assert_eq!(p.known_msgpos, 0);
    assert_eq!(p.known_packet, u32::MAX);
}

#[test]
fn replays_are_handed_over() {
    let mut server = new_server(10, 4);
    server.config.replays_enabled = true;
    assert!(server.new_game(blank_game()).is_none());
    server.game.period = 2;
    server.game.replay_data = vec![7u8; 300];
    let file = server.new_game(blank_game()).unwrap();
    assert_eq!(file.file_name, "Test.2021-06-01T203000.hrp");
    assert_eq!(file.contents.len(), 308);
    assert_eq!(&file.contents[0..9], &[0, 0, 0, 0, 44, 1, 0, 0, 7]);
    server.game.period = 1;
    server.game.start_time =
        HQMStartTime { year: 12021, month: 12, day: 31, hour: 3, minute: 4, second: 5 };
    let file = server.new_game(blank_game()).unwrap();
    assert_eq!(file.file_name, "Test.+12021-12-31T030405.hrp");
    assert_eq!(file.contents, vec![0; 8]);
}

fn lone_server(version: HQMClientVersion) -> HQMServer {
    let mut server = new_server(10, 4);
    let mut rules = quiet_rules();
    join(&mut server, &mut rules, 1, "Anna");
    let p = server.players.get_mut(0).unwrap();
    p.messages.clear();
    p.client_version = version;
    p.game_id = 1;
    server.save_tick(0, 192);
    server.game.replay_messages.clear();
    server
}

#[test]
fn update_of_a_plain_client() {
    let mut server = lone_server(HQMClientVersion::Vanilla);
    server.save_tick(0, 192);
    server.game.red_score = 2;
    server.game.blue_score = 3;
    server.game.period = 1;
    server.add_goal_message(HQMTeam::Red, Some(1), Some(2));
    let mut buf = vec![0xffu8; UPDATE_BUFFER_SIZE];
    let out = server.send_step(&mut buf);
    assert_eq!(out.len(), 1);
    assert_eq!(out[0].0, addr(1));
    assert_eq!(
        out[0].1,
        vec![
            72, 111, 99, 107, 5, 1, 0, 0, 0, 1, 0, 0, 0, 4, 6, 96, 234, 0, 0, 2, 0, 0, 1, 0, 0, 0,
            255, 255, 255, 255, 0, 0, 0, 0, 1, 0, 16, 16, 8,
        ]
    );
}

#[test]
fn update_of_a_client_that_shows_rules() {
    let mut server = lone_server(HQMClientVersion::PingRules);
    for k in 0u64..8 {
        server.save_tick(k, 192);
    }
    server.game.time = 100;
    server.game.time_break = 500;
    server.game.is_intermission_goal = true;
    server.game.period = 2;
    server.game.offside_indication = HQMRuleIndication::Warning;
    server.game.icing_indication = HQMRuleIndication::Warning;
    for _ in 0..4 {
        server.add_directed_server_chat_message("x", 0);
    }
    let p = server.players.get_mut(0).unwrap();
    p.view_player_index = 9;
    p.known_packet = 6;
    p.known_msgpos = 4;
    p.deltatime = 0x0102_0304;
    let mut buf = vec![0u8; UPDATE_BUFFER_SIZE];
    let out = server.send_step(&mut buf);
    assert_eq!(
        out[0].1,
        vec![
            72, 111, 99, 107, 5, 1, 0, 0, 0, 8, 0, 0, 0, 0, 0, 200, 0, 232, 3, 4, 18, 0, 4, 3, 2, 1,
            3, 0, 0, 0, 8, 0, 0, 0, 6, 0, 0, 0, 0, 0, 0, 0, 64, 0, 0,
        ]
    );
}

fn rules_byte(offside: HQMRuleIndication, icing: HQMRuleIndication) -> u8 {
    let mut server = lone_server(HQMClientVersion::PingRules);
    server.game.offside_indication = offside;
    server.game.icing_indication = icing;
    let mut buf = vec![0u8; UPDATE_BUFFER_SIZE];
    let out = server.send_step(&mut buf);
    out[0].1[26]
}

#[test]
fn offside_goes_before_icing() {
    let (no, warning, yes) =
        (HQMRuleIndication::No, HQMRuleIndication::Warning, HQMRuleIndication::Yes);
    assert_eq!(rules_byte(no, no), 0);
    assert_eq!(rules_byte(warning, no), 1);
    assert_eq!(rules_byte(no, warning), 2);
    assert_eq!(rules_byte(yes, yes), 4);
    assert_eq!(rules_byte(yes, warning), 4);
    assert_eq!(rules_byte(warning, yes), 8);
}

#[test]
fn newcomers_learn_the_game_first() {
    let mut server = lone_server(HQMClientVersion::Vanilla);
    server.players.get_mut(0).unwrap().game_id = u32::MAX;
    server.players.get_mut(0).unwrap().known_msgpos = 1000;
    let mut buf = vec![0u8; UPDATE_BUFFER_SIZE];
    let out = send_updates(1, &server.game, &server.players.players, &mut buf);
    assert_eq!(out.len(), 1);
    assert_eq!(out[0].1, vec![72, 111, 99, 107, 6, 1, 0, 0, 0]);
}

#[test]
fn at_most_fifteen_messages_go_out_at_a_time() {
    let mut server = lone_server(HQMClientVersion::Vanilla);
    for _ in 0..40 {
        server.add_goal_message(HQMTeam::Red, None, None);
    }
    let mut buf = vec![0u8; UPDATE_BUFFER_SIZE];
    let mut counts = Vec::new();
    for known in [0usize, 15, 30, 40] {
        server.players.get_mut(0).unwrap().known_msgpos = known;
        let out = server.send_step(&mut buf);
        counts.push(out[0].1[34] & 15);
    }
    assert_eq!(counts, vec![15, 15, 10, 0]);
}

#[test]
fn objects_are_coded_against_what_the_client_knows() {
    let mut server = lone_server(HQMClientVersion::Vanilla);
    server.game.world.objects[0] = HQMGameObject::Puck(HQMPuck {
        packet: HQMPuckPacket { pos: (1000, 1000, 1000), rot: (5, 5) },
    });
    server.save_tick(0, 192);
    server.game.world.objects[0] = HQMGameObject::Puck(HQMPuck {
        packet: HQMPuckPacket { pos: (1001, 1000, 999), rot: (5, 6) },
    });
    server.save_tick(0, 192);
    let mut buf = vec![0u8; UPDATE_BUFFER_SIZE];
    server.players.get_mut(0).unwrap().known_packet = 1;
    let near = server.send_step(&mut buf)[0].1.len();
    server.players.get_mut(0).unwrap().known_packet = 0;
    let no_puck = server.send_step(&mut buf)[0].1.len();
    server.players.get_mut(0).unwrap().known_packet = 2;
    let same = server.send_step(&mut buf)[0].1.len();
    server.players.get_mut(0).unwrap().known_packet = u32::MAX;
    let nothing = server.send_step(&mut buf)[0].1.len();
    assert_eq!((near, no_puck, same, nothing), (40, 53, 53, 53));
}

#[test]
fn packets_show_the_objects() {
    let mut objects = vec![HQMGameObject::Empty; 40];
    let puck = HQMPuck { packet: HQMPuckPacket { pos: (1, 2, 3), rot: (4, 5) } };
    objects[31] = HQMGameObject::Puck(puck);
    let packets = get_packets(&objects);
    assert_eq!(packets.len(), 32);
    assert_eq!(packets[0], HQMObjectPacket::Empty);
    assert_eq!(packets[31], HQMObjectPacket::Puck(puck.get_packet()));
}

#[test]
fn replay_grows_step_by_step() {
    let mut server = lone_server(HQMClientVersion::Vanilla);
    server.save_tick(0, 192);
    server.config.replays_enabled = true;
    server.game.red_score = 2;
    server.game.blue_score = 3;
    server.game.period = 1;
    server.add_goal_message(HQMTeam::Red, Some(1), Some(2));
    assert!(replay_fits(&server.game));
    let mut buf = vec![0u8; UPDATE_BUFFER_SIZE];
    server.send_step(&mut buf);
    let expected = vec![
        5, 4, 6, 96, 234, 0, 0, 2, 0, 1, 0, 0, 0, 255, 255, 255, 255, 0, 0, 0, 0, 1, 0, 0, 0, 1,
        129, 0,
    ];
    assert_eq!(server.game.replay_data, expected);
    assert_eq!(server.game.replay_msg_pos, 1);
    assert_eq!(server.game.replay_last_packet, 1);
    server.save_tick(0, 192);
    server.send_step(&mut buf);
    assert_eq!(server.game.replay_msg_pos, 1);
    assert_eq!(server.game.replay_last_packet, 2);
    assert_eq!(&server.game.replay_data[0..28], &expected[..]);
    assert_eq!(server.game.replay_data.len(), 28 + 26);
}

#[test]
fn replay_takes_the_byte_behind_the_last_bit() {
    let mut server = lone_server(HQMClientVersion::Vanilla);
    let mut buf = vec![0xeeu8; UPDATE_BUFFER_SIZE];
    write_replay(&mut server.game, &mut buf);
    assert_eq!(server.game.replay_data.len(), 26);
    assert_eq!(server.game.replay_data[25], 0xee);
}

#[test]
fn replay_of_too_many_messages_does_not_fit() {
    let mut server = lone_server(HQMClientVersion::Vanilla);
    for _ in 0..70 {
        server.add_server_chat_message(&"x".repeat(63));
    }
    assert!(replay_fits(&server.game));
    server.add_server_chat_message(&"x".repeat(63));
    server.add_server_chat_message(&"x".repeat(63));
    assert!(!replay_fits(&server.game));
    for _ in 0..2000 {
        server.add_server_chat_message("");
    }
    assert!(!replay_fits(&server.game));
}

#[test]
fn slots_are_seen_and_changed() {
    let mut list = HQMServerPlayerList::new(3);
    assert_eq!(list.len(), 3);
    list.add_player(1, HQMConnectedPlayer::new(1, String::from("Bo"), addr(1), Vec::new()));
    for slot in list.iter_mut() {
        if let Some(player) = slot {
            player.inactivity = 9;
        }
    }
    let seen: Vec<Option<u32>> = list.iter().iter().map(|p| p.map(|p| p.inactivity)).collect();
    assert_eq!(seen, vec![None, Some(9), None]);
    assert!(list.get(0).is_none());
    assert!(list.get(3).is_none());
    assert!(list.get_mut(3).is_none());
    list.get_mut(1).unwrap().is_admin = true;
    assert!(list.get(1).unwrap().is_admin);
    list.remove_player(1);
    assert!(list.get(1).is_none());
}

#[test]
fn rules_may_place_newcomers_on_the_ice() {
    let mut server = new_server(10, 4);
    let mut rules = Rules { log: Vec::new(), join_team: Some(HQMTeam::Red) };
    join(&mut server, &mut rules, 1, "Anna");
    assert_eq!(server.game.world.find_skater(0), Some(1));
    assert_eq!(
        texts(&server, 0),
        vec!["+0 Anna", "Welcome", "Have fun", "+0 Anna at 1 for 0", "Anna joined"]
    );
    server.handle_message(addr(1), b"Hock\x07", 0, &mut rules);
    assert_eq!(server.game.world.find_skater(0), None);
}

struct PlainRules {}

impl HQMServerBehaviour for PlainRules {
    type Event = ();

    fn before_tick(&mut self, _server: &mut HQMServer) {}

    fn after_tick(&mut self, _server: &mut HQMServer, _events: &[()]) {}

    fn handle_command(&mut self, _server: &mut HQMServer, _cmd: &str, _arg: &str, _index: usize) {}

    fn create_game(&mut self) -> HQMGame {
        blank_game()
    }

    fn before_player_exit(&mut self, _server: &mut HQMServer, _index: usize) {}

    fn after_player_join(&mut self, _server: &mut HQMServer, _index: usize) {}

    fn get_number_of_players(&self) -> u32 {
        3
    }
}

#[test]
fn rules_need_not_care_who_comes_and_goes() {
    let mut server = new_server(10, 4);
    let mut rules = PlainRules {};
    server.handle_message(addr(1), &join_message(55, b"Anna"), 0, &mut rules);
    assert_eq!(texts(&server, 0), vec!["+0 Anna", "Welcome", "Have fun", "Anna joined"]);
    server.handle_message(addr(1), b"Hock\x07", 0, &mut rules);
    assert_eq!(server.player_count(), 0);
    assert!(matches!(server.start_tick(&mut rules), HQMTickPhase::Idle));
}

#[test]
fn joining_and_leaving_leaves_only_messages() {
    let mut server = new_server(10, 4);
    let mut rules = quiet_rules();
    join(&mut server, &mut rules, 1, "Anna");
    server.allow_join = true;
    let slot = server.add_player(String::from("Bo"), addr(2));
    assert_eq!(slot, Some(1));
    server.remove_player(1);
    assert_eq!(server.player_count(), 1);
    assert_eq!(server.find_empty_player_slot(), Some(1));
    assert!(server.allow_join);
    let told = texts(&server, 0);
    assert_eq!(&told[4..], &["+1 Bo", "-1 Bo"]);
    assert_eq!(server.game.persistent_messages.len(), 3);
}

#[test]
fn answers_to_commands_are_private() {
    let (mut server, mut rules) = crowd();
    let others: Vec<usize> = (1..8).filter(|i| *i != 4).collect();
    let before: Vec<usize> = others.iter().map(|i| texts(&server, *i).len()).collect();
    let replayed = server.game.replay_messages.len();
    for line in ["/list", "/search an", "/view 1", "/restoreview", "/pings an", "/lefty"] {
        command(&mut server, &mut rules, line);
    }
    let after: Vec<usize> = others.iter().map(|i| texts(&server, *i).len()).collect();
    assert_eq!(before, after);
    assert_eq!(server.game.replay_messages.len(), replayed);
}

fn decoded(r: &mut HQMMessageReader, n: u8, old: u32) -> u32 {
    let signed = |v: u32, m: u32| if 2 * v >= m { v as i64 - m as i64 } else { v as i64 };
    let diff = match r.read_bits(2) {
        0 => signed(r.read_bits(3), 8),
        1 => signed(r.read_bits(6), 64),
        2 => signed(r.read_bits(12), 4096),
        _ => r.read_bits(n) as i64 - old as i64,
    };
    (old as i64 + diff) as u32
}

#[test]
fn a_client_reads_what_the_server_has() {
    let mut server = lone_server(HQMClientVersion::Ping);
    let puck = |x: u32| {
        HQMGameObject::Puck(HQMPuck {
            packet: HQMPuckPacket { pos: (x, 131071, 0), rot: (x, 0x7fff_ffff) },
        })
    };
    server.game.world.objects[0] = puck(1000);
    server.save_tick(0, 192);
    server.game.world.objects[0] = puck(1040);
    server.save_tick(0, 192);
    server.add_server_chat_message("gg");
    let p = server.players.get_mut(0).unwrap();
    p.known_packet = 1;
    p.deltatime = 77;
    let mut buf = vec![0u8; UPDATE_BUFFER_SIZE];
    let out = server.send_step(&mut buf);
    let mut r = HQMMessageReader::new(&out[0].1);
    assert_eq!(r.read_bytes_aligned(4), b"Hock".to_vec());
    assert_eq!(r.read_byte_aligned(), 5);
    assert_eq!(r.read_u32_aligned(), 1);
    assert_eq!(r.read_u32_aligned(), 2);
    assert_eq!(r.read_bits(1), 0);
    assert_eq!(r.read_bits(8), 0);
    assert_eq!(r.read_bits(8), 0);
    assert_eq!(r.read_bits(16), 30000);
    assert_eq!(r.read_bits(16), 0);
    assert_eq!(r.read_bits(8), 0);
    assert_eq!(r.read_bits(8), 0);
    assert_eq!(r.read_u32_aligned(), 77);
    assert_eq!(r.read_u32_aligned(), 2);
    assert_eq!(r.read_u32_aligned(), 1);
    assert_eq!(r.read_bits(1), 1);
    assert_eq!(r.read_bits(2), 1);
    assert_eq!(decoded(&mut r, 17, 1000), 1040);
    assert_eq!(decoded(&mut r, 17, 131071), 131071);
    assert_eq!(decoded(&mut r, 17, 0), 0);
    assert_eq!(decoded(&mut r, 31, 1000), 1040);
    assert_eq!(decoded(&mut r, 31, 0x7fff_ffff), 0x7fff_ffff);
    assert_eq!(r.read_bits(31), 0);
    assert_eq!(r.read_bits(4), 1);
    assert_eq!(r.read_bits(16), 0);
    assert_eq!(r.read_bits(6), 2);
    assert_eq!(r.read_bits(6), 63);
    assert_eq!(r.read_bits(6), 2);
    assert_eq!(r.read_bits(7), 'g' as u32);
    assert_eq!(r.read_bits(7), 'g' as u32);
}
