use sm64js_core::auth::{AuthInfo, DiscordIdentity};
use sm64js_core::flag::Position;
use sm64js_core::game::{Game, TickPlan};
use sm64js_core::protocol::{
    AttackMsg, ChatMsg, GrabFlagMsg, JoinGameMsg, MarioMsg, SkinData, SkinMsg, Sm64JsMsg,
};
use sm64js_core::server::Sm64JsServer;
use sm64js_core::session::{route, Heartbeat, Route, SessionClock};
use sm64js_core::wire::{compress_frame, decompress_frame};

fn user(account_id: i32) -> AuthInfo {
    AuthInfo { account_id, discord: None, google_id: None }
}

fn moderator(account_id: i32) -> AuthInfo {
    AuthInfo {
        account_id,
        discord: Some(DiscordIdentity {
            id: "1".to_string(),
            username: "mod".to_string(),
            discriminator: "0001".to_string(),
            avatar: None,
            roles: vec!["780937094473318420".to_string()],
        }),
        google_id: None,
    }
}

fn join(level: u32, name: &str) -> JoinGameMsg {
    JoinGameMsg { level, name: name.to_string(), use_discord_name: false }
}

fn frame(x: i64, y: i64, z: i64) -> MarioMsg {
    MarioMsg { socket_id: 0, pos: Position::new(x, y, z), body: vec![1, 2, 3] }
}

fn chat(text: &str) -> ChatMsg {
    ChatMsg { message: text.to_string(), sender: String::new(), socket_id: 0, is_server: false, is_admin: false }
}

fn room_index(s: &Sm64JsServer, level: u32) -> usize {
    s.room_index(level).unwrap()
}

fn snapshot(s: &Sm64JsServer, level: u32) -> sm64js_core::protocol::MarioListMsg {
    match s.broadcast_data(room_index(s, level)).msg {
        Sm64JsMsg::List(l) => l,
        _ => panic!("not a snapshot"),
    }
}

#[test]
fn connect_join_move_disconnect() {
    let mut s = Sm64JsServer::with_default_rooms();
    let a = 1111;
    assert!(matches!(s.connect(user(42), "1.1.1.1".to_string(), a), Ok(None)));
    let accepted = s.send_join_game(a, join(1000, "Alice"), &user(42)).unwrap();
    assert_eq!(accepted.level, 1000);
    assert_eq!(accepted.name, "Alice");
    s.set_data(a, frame(0, 0, 0));
    s.set_data(a, frame(100_000, 0, 0));
    s.set_data(a, frame(200_000, 0, 0));
    let l = snapshot(&s, 1000);
    assert_eq!(l.mario.len(), 1);
    assert_eq!(l.mario[0].socket_id, a);
    assert_eq!(l.mario[0].pos, Position::new(200_000, 0, 0));
    assert_eq!(l.flag.len(), 4);
    s.disconnect(a);
    assert_eq!(snapshot(&s, 1000).mario.len(), 0);
    assert!(s.clients().is_empty());
}

#[test]
fn grab_and_drop_via_attack() {
    let mut s = Sm64JsServer::with_default_rooms();
    let (a, b) = (1, 2);
    s.connect(user(1), "ip".to_string(), a).ok().unwrap();
    s.connect(user(2), "ip".to_string(), b).ok().unwrap();
    s.send_join_game(a, join(1000, "Alice"), &user(1)).unwrap();
    s.send_join_game(b, join(1000, "Bobby"), &user(2)).unwrap();
    s.set_data(a, frame(9_380_000, 7_657_000, -8_980_000));
    let grabbed = s.send_grab_flag(a, GrabFlagMsg { flag_id: 0, pos: Position::new(9_380_000, 7_657_000, -8_980_000) });
    assert!(grabbed);
    let f = snapshot(&s, 1000).flag[0];
    assert!(f.linked_to_player);
    assert_eq!(f.socket_id, a);
    s.set_data(b, frame(9_000_000, 7_657_000, -9_000_000));
    s.send_attack(b, AttackMsg { flag_id: 0, target_socket_id: a });
    let f = snapshot(&s, 1000).flag[0];
    assert!(!f.linked_to_player);
    assert_eq!(f.pos.y, 7_657_000 + 600_000);
    let ri = room_index(&s, 1000);
    assert!(s.rooms()[ri].flag(0).is_fall_mode());
}

#[test]
fn self_attack_is_a_no_op() {
    let mut s = Sm64JsServer::with_default_rooms();
    s.connect(user(1), "ip".to_string(), 1).ok().unwrap();
    s.send_join_game(1, join(1000, "Alice"), &user(1)).unwrap();
    s.set_data(1, frame(9_380_000, 7_657_000, -8_980_000));
    assert!(s.send_grab_flag(1, GrabFlagMsg { flag_id: 0, pos: Position::new(9_380_000, 7_657_000, -8_980_000) }));
    s.send_attack(1, AttackMsg { flag_id: 0, target_socket_id: 1 });
    let f = snapshot(&s, 1000).flag[0];
    assert!(f.linked_to_player);
    assert_eq!(f.socket_id, 1);
}

#[test]
fn disconnect_while_holding_drops_flag() {
    let mut s = Sm64JsServer::with_default_rooms();
    s.connect(user(1), "ip".to_string(), 1).ok().unwrap();
    s.send_join_game(1, join(1000, "Alice"), &user(1)).unwrap();
    assert!(s.send_grab_flag(1, GrabFlagMsg { flag_id: 0, pos: Position::new(9_380_000, 7_657_000, -8_980_000) }));
    s.disconnect(1);
    let f = snapshot(&s, 1000).flag[0];
    assert!(!f.linked_to_player);
    assert_eq!(f.pos.y, 7_657_000 + 600_000);
    let ri = room_index(&s, 1000);
    assert!(s.rooms()[ri].flag(0).is_fall_mode());
}

#[test]
fn second_connect_kicks_first_session() {
    let mut s = Sm64JsServer::with_default_rooms();
    assert!(matches!(s.connect(user(42), "ip".to_string(), 10), Ok(None)));
    assert!(matches!(s.connect(user(42), "ip".to_string(), 11), Ok(Some(10))));
    assert_eq!(s.clients().len(), 1);
    assert_eq!(s.clients()[0].socket_id, 11);
    assert!(s.connect(user(43), "ip".to_string(), 11).is_err());
}

#[test]
fn join_rules() {
    let mut s = Sm64JsServer::with_default_rooms();
    s.connect(user(1), "ip".to_string(), 1).ok().unwrap();
    assert!(s.send_join_game(1, join(12345, "Alice"), &user(1)).is_none());
    assert!(s.send_join_game(1, join(1000, "xx"), &user(1)).is_none());
    assert!(s.send_join_game(1, join(1000, "ServerGuy"), &user(1)).is_none());
    assert!(s.send_join_game(1, join(1000, "Alice"), &user(1)).is_some());
    assert!(s.send_join_game(1, join(1000, "Alice"), &user(1)).is_none());
    let by_discord = JoinGameMsg { level: 16, name: String::new(), use_discord_name: true };
    assert!(s.send_join_game(1, by_discord.clone(), &user(1)).is_none());
    let named = s.send_join_game(1, by_discord, &moderator(1)).unwrap();
    assert_eq!(named.name, "mod#0001");
    assert!(s.send_join_game(2, join(1000, "Alice"), &user(2)).is_none());
}

#[test]
fn spam_is_answered_privately() {
    let mut s = Sm64JsServer::with_default_rooms();
    s.connect(user(7), "ip".to_string(), 7).ok().unwrap();
    s.send_join_game(7, join(1000, "Alice"), &user(7)).unwrap();
    let t0: i64 = 1_700_000_000_000_000_000;
    for k in 0..3 {
        let out = s.send_chat(7, chat("hi"), &user(7), None, t0 + k * 500_000_000);
        let d = out.broadcast.unwrap();
        assert_eq!(d.recipients, vec![7]);
        match d.msg {
            Sm64JsMsg::Chat(m) => {
                assert_eq!(m.message, "hi");
                assert_eq!(m.sender, "Alice");
                assert_eq!(m.socket_id, 7);
            },
            _ => panic!("not a chat message"),
        }
        assert!(out.reply.is_none());
    }
    let out = s.send_chat(7, chat("hi"), &user(7), None, t0 + 1_500_000_000);
    assert!(out.broadcast.is_none());
    let reply = out.reply.unwrap();
    assert_eq!(reply.sender, "[Server]");
    assert!(reply.is_server);
    assert_eq!(reply.message, "Chat message ignored: You have to wait longer between sending chat messages");
}

#[test]
fn excessive_spam_mutes_account() {
    let mut s = Sm64JsServer::with_default_rooms();
    s.connect(user(8), "ip".to_string(), 8).ok().unwrap();
    s.send_join_game(8, join(1000, "Alice"), &user(8)).unwrap();
    let t0: i64 = 1_700_000_000_000_000_000;
    for k in 0..29 {
        let out = s.send_chat(8, chat("hello"), &user(8), None, t0 + k * 2_000_000_000);
        assert!(out.mute_account.is_none());
    }
    let out = s.send_chat(8, chat("hello"), &user(8), None, t0 + 58_000_000_000);
    assert_eq!(out.mute_account, Some((8, t0 + 58_000_000_000 + 300_000_000_000)));
    assert_eq!(out.reply.unwrap().message, "You have been muted for 5min due to sending way too many messages");
}

#[test]
fn muted_sender_gets_notice() {
    let mut s = Sm64JsServer::with_default_rooms();
    s.connect(user(9), "ip".to_string(), 9).ok().unwrap();
    s.send_join_game(9, join(1000, "Alice"), &user(9)).unwrap();
    let now: i64 = 1_000_000_000_000;
    let out = s.send_chat(9, chat("hello"), &user(9), Some(Some(now + 90_000_000_000)), now);
    assert_eq!(out.reply.unwrap().message, "You are muted for 1m 30s");
    let out = s.send_chat(9, chat("hello"), &user(9), Some(None), now);
    assert_eq!(out.reply.unwrap().message, "You are muted");
    assert_eq!(s.chat_history().len(), 0);
}

#[test]
fn announcement_reaches_room() {
    let mut s = Sm64JsServer::with_default_rooms();
    s.connect(moderator(1), "ip".to_string(), 1).ok().unwrap();
    s.connect(user(2), "ip".to_string(), 2).ok().unwrap();
    s.send_join_game(1, join(1000, "Mod"), &moderator(1)).unwrap();
    s.send_join_game(2, join(1000, "Alice"), &user(2)).unwrap();
    let out = s.send_chat(1, chat("/ANNOUNCEMENT hello world"), &moderator(1), None, 0);
    let d = out.broadcast.unwrap();
    assert_eq!(d.recipients, vec![1, 2]);
    match d.msg {
        Sm64JsMsg::Announcement(a) => {
            assert_eq!(a.message, "hello world");
            assert_eq!(a.timer, 300);
        },
        _ => panic!("not an announcement"),
    }
    let out = s.send_chat(2, chat("/ANNOUNCEMENT hello world"), &user(2), None, 0);
    assert!(out.broadcast.is_none());
}

#[test]
fn skins_are_broadcast_once() {
    let mut s = Sm64JsServer::with_default_rooms();
    s.connect(user(1), "ip".to_string(), 1).ok().unwrap();
    s.send_join_game(1, join(1000, "Alice"), &user(1)).unwrap();
    let skin = SkinMsg { socket_id: 1, skin_data: Some(SkinData { bytes: vec![9, 9] }), player_name: String::new(), num_coins: 0 };
    s.send_skin(1, skin);
    let out = s.broadcast_skins();
    assert_eq!(out.len(), 1);
    match &out[0].msg {
        Sm64JsMsg::Skin(m) => {
            assert_eq!(m.player_name, "Alice");
            assert_eq!(m.skin_data.as_ref().unwrap().bytes, vec![9, 9]);
        },
        _ => panic!("not a skin"),
    }
    assert!(s.broadcast_skins().is_empty());
    let all = s.send_request_cosmetics(1).unwrap();
    assert_eq!(all.len(), 1);
}

#[test]
fn lobby_and_player_lists() {
    let mut s = Sm64JsServer::with_default_rooms();
    s.connect(user(1), "ip".to_string(), 1).ok().unwrap();
    s.connect(user(2), "ip".to_string(), 2).ok().unwrap();
    s.send_join_game(2, join(16, "Bobby"), &user(2)).unwrap();
    let lists = s.broadcast_valid_update();
    assert_eq!(lists.len(), s.rooms().len() + 1);
    let lobby = lists.last().unwrap();
    assert_eq!(lobby.recipients, vec![1]);
    let kicked = s.kick_client_by_account_id(2);
    assert_eq!(kicked, Some(2));
    assert_eq!(s.kick_client_by_ip_addr("ip"), Some(1));
    assert!(s.clients().is_empty());
}

#[test]
fn game_loop_cadence() {
    let mut g = Game::new();
    let mut seconds = 0;
    let mut posts = 0;
    for _ in 0..(30 * 300) {
        let plan = g.advance(true);
        if plan.second {
            seconds += 1;
        }
        if plan.player_list {
            posts += 1;
        }
    }
    assert_eq!(seconds, 300);
    assert_eq!(posts, 1);
    let mut s = Sm64JsServer::with_default_rooms();
    let out = s.game_tick(TickPlan { second: false, player_list: false });
    assert_eq!(out.len(), s.rooms().len());
}

#[test]
fn heartbeat_rules() {
    let mut c = SessionClock::new(0);
    assert_eq!(c.check(5_000), Heartbeat::Ping);
    c.on_activity(100_000);
    assert_eq!(c.check(120_001), Heartbeat::Close);
    let mut c = SessionClock::new(0);
    for k in 0..30 {
        c.on_frame(Position::new(1, 2, 3), 1_000 + k);
    }
    assert_eq!(c.check(2_000), Heartbeat::Ping);
    assert_eq!(route(&Sm64JsMsg::Ping), Route::EchoPing);
    assert_eq!(route(&Sm64JsMsg::RequestCosmetics), Route::RequestCosmetics);
}

#[test]
fn compressed_frame_round_trip() {
    let payload: Vec<u8> = (0..200u32).map(|i| (i % 7) as u8).collect();
    let z = compress_frame(&payload);
    assert_ne!(z, payload);
    assert_eq!(decompress_frame(&z).unwrap(), payload);
    assert!(decompress_frame(&[1, 2, 3]).is_none());
}

#[test]
fn empty_skin_is_not_broadcast() {
    let mut s = Sm64JsServer::with_default_rooms();
    s.connect(user(1), "ip".to_string(), 1).ok().unwrap();
    s.send_join_game(1, join(1000, "Alice"), &user(1)).unwrap();
    s.send_skin(1, SkinMsg { socket_id: 1, skin_data: None, player_name: String::new(), num_coins: 0 });
    assert!(s.broadcast_skins().is_empty());
}

#[test]
fn grab_boundary_in_mushroom_battlefield() {
    let mut rooms = sm64js_core::room::Room::init_rooms();
    let ri = rooms.iter().position(|r| r.get_id() == 1000).unwrap();
    let room = &mut rooms[ri];
    assert!(!room.process_grab_flag(0, Position::new(9_380_000, 7_657_000, -8_930_000), 7));
    assert!(room.flag(0).is_at_start());
    assert!(room.process_grab_flag(0, Position::new(9_380_000, 7_657_000, -8_930_001), 7));
    assert_eq!(room.flag(0).carrier(), Some(7));
    assert!(!room.flag(0).is_at_start());
    room.process_attack(0, Position::new(9_000_000, 7_657_000, -9_000_000), 7);
    let m = room.flag(0).get_msg();
    assert!(!m.linked_to_player);
    assert_eq!(m.pos.y, 8_257_000);
    assert_eq!(m.height_before_fall, 8_257_000);
    assert!(m.pos.x >= 8_500_000 && m.pos.x <= 9_500_000);
    assert!(m.pos.z >= -9_500_000 && m.pos.z <= -8_500_000);
}

#[test]
fn leaving_player_drops_every_flag() {
    let mut rooms = sm64js_core::room::Room::init_rooms();
    let ri = rooms.iter().position(|r| r.get_id() == 1001).unwrap();
    let room = &mut rooms[ri];
    assert!(room.process_grab_flag(0, Position::new(-76_000, 467_000, -7_768_000), 5));
    assert!(room.process_grab_flag(1, Position::new(-76_000, 467_000, 7_945_000), 5));
    room.drop_flag_if_holding(5);
    for k in 0..2 {
        let f = room.flag(k);
        assert_eq!(f.carrier(), None);
        assert!(f.is_fall_mode());
        assert_eq!(f.pos().y, 467_000 + 600_000);
    }
}

#[test]
fn kick_releases_flag() {
    let mut s = Sm64JsServer::with_default_rooms();
    s.connect(user(1), "ip".to_string(), 1).ok().unwrap();
    s.send_join_game(1, join(1000, "Alice"), &user(1)).unwrap();
    assert!(s.send_grab_flag(1, GrabFlagMsg { flag_id: 0, pos: Position::new(9_380_000, 7_657_000, -8_980_000) }));
    assert_eq!(s.kick_client_by_account_id(1), Some(1));
    let f = snapshot(&s, 1000).flag[0];
    assert!(!f.linked_to_player);
}

#[test]
fn second_connect_keeps_other_sessions() {
    let mut s = Sm64JsServer::with_default_rooms();
    s.connect(user(1), "a".to_string(), 1).ok().unwrap();
    s.connect(user(2), "b".to_string(), 2).ok().unwrap();
    s.send_join_game(2, join(16, "Bobby"), &user(2)).unwrap();
    assert!(matches!(s.connect(user(1), "c".to_string(), 3), Ok(Some(1))));
    assert_eq!(s.clients().len(), 2);
    assert_eq!(s.clients()[0].socket_id, 2);
    assert_eq!(s.clients()[0].get_level(), Some(16));
    assert_eq!(s.clients()[1].socket_id, 3);
    assert_eq!(s.clients()[1].ip, "c");
}
