use sm64js_core::auth::{AuthInfo, DiscordIdentity};
use sm64js_core::history::{AccountInfo, ChatHistory, GetChat};
use sm64js_core::moderation::{
    may_sanction, Sanction, account_access, chat_log_access, chat_log_post, decimal_string, digits_string,
    escape_markdown_text, player_line_text, AuthReq, GetChatError,
};
use sm64js_core::protocol::JoinGameMsg;
use sm64js_core::server::Sm64JsServer;
use sm64js_core::token::{Permission, PermissionLevel, PermissionValue, Token};

fn with_roles(account_id: i32, roles: &[&str]) -> AuthInfo {
    AuthInfo {
        account_id,
        discord: Some(DiscordIdentity {
            id: format!("d{}", account_id),
            username: "u".to_string(),
            discriminator: "1".to_string(),
            avatar: None,
            roles: roles.iter().map(|r| r.to_string()).collect(),
        }),
        google_id: None,
    }
}

fn query(limit: Option<u32>) -> GetChat {
    GetChat { from: None, to: None, limit, player_name: None, discord_id: None, google_id: None }
}

fn history_of(n: i64) -> ChatHistory {
    let mut h = ChatHistory::new();
    for k in 0..n {
        let who = AccountInfo { account_id: k as i32, discord_id: Some(format!("d{}", k)), google_id: None };
        h.add_message_at(&format!("m{}", k), who, format!("p{}", k), "9.9.9.9".to_string(), 1_000 + k * 100_000_000_000);
    }
    h
}

#[test]
fn decimal_forms() {
    assert_eq!(decimal_string(0), "0");
    assert_eq!(decimal_string(-42), "-42");
    assert_eq!(decimal_string(i64::MIN), "-9223372036854775808");
    assert_eq!(digits_string(1234567), "1234567");
}

#[test]
fn player_line_format() {
    assert_eq!(player_line_text(false, "Alice", "https://x", 7), "[Alice](https://x/api/account?account_id=7)\n");
    assert_eq!(player_line_text(true, "Mod", "", 1), "\u{1F31F} [Mod](/api/account?account_id=1)\n");
}

#[test]
fn chat_log_post_format() {
    let post = chat_log_post("a*b_c", "Alice".to_string(), "Lobby", 12, Some(("5", Some("abc"))), "https://x").unwrap();
    assert_eq!(post.description, "a\\*b\\_c");
    assert_eq!(post.author.url.unwrap(), "https://x/api/account?account_id=12");
    assert_eq!(post.author.icon_url.unwrap(), "https://cdn.discordapp.com/avatars/5/abc.png?size=64");
    assert_eq!(post.footer.text, "#12 - Lobby");
    assert!(chat_log_post("1337", "A".to_string(), "L", 1, None, "").is_none());
    assert_eq!(escape_markdown_text("plain"), "plain");
}

#[test]
fn apikey_header() {
    assert_eq!(AuthReq::from_authorization("APIKEY abc").unwrap().apikey, "abc");
    assert_eq!(AuthReq::from_authorization("APIKEY abc def").unwrap().apikey, "abc");
    assert!(AuthReq::from_authorization("Bearer abc").is_none());
    assert!(AuthReq::from_authorization("APIKEY").is_none());
}

#[test]
fn token_lookup() {
    let tokens = vec![
        Token { key: "k1".to_string(), permissions: vec![] },
        Token {
            key: "k2".to_string(),
            permissions: vec![Permission { name: PermissionValue::GetChat, level: PermissionLevel::Mod }],
        },
    ];
    let t = Token::find(&tokens, &"k2".to_string()).unwrap();
    assert!(t.allows(PermissionValue::GetChat));
    assert!(!t.allows(PermissionValue::BanPlayer));
    assert!(Token::find(&tokens, &"nope".to_string()).is_none());
}

#[test]
fn access_by_role() {
    let moderator = with_roles(1, &["755200616267120791"]);
    let trial = with_roles(2, &["801876964892868659"]);
    let nobody = AuthInfo { account_id: 3, discord: None, google_id: None };
    assert!(matches!(chat_log_access(&moderator), Ok(true)));
    assert!(matches!(chat_log_access(&trial), Ok(false)));
    assert!(matches!(chat_log_access(&nobody), Err(GetChatError::Unauthorized)));
    let a = account_access(&moderator).ok().unwrap();
    assert!(a.extended && a.see_ip);
    let t = account_access(&trial).ok().unwrap();
    assert!(!t.extended && !t.see_ip);
    assert!(account_access(&nobody).is_err());
}

#[test]
fn chat_log_newest_within_limit() {
    let h = history_of(5);
    let r = h.get_messages(query(Some(2)), true, false);
    assert_eq!(r.len(), 2);
    assert_eq!(r[0].message, "m3");
    assert_eq!(r[1].message, "m4");
    assert_eq!(r[1].player_name.as_deref(), Some("p4"));
    assert!(r[1].ip.is_none());
    let all = h.get_messages(query(None), false, true);
    assert_eq!(all.len(), 5);
    assert!(all[0].player_name.is_none());
    assert_eq!(all[0].ip.as_deref(), Some("9.9.9.9"));
    assert_eq!(h.get_messages(query(Some(0)), true, true).len(), 1);
}

#[test]
fn chat_log_filters() {
    let h = history_of(5);
    let mut q = query(None);
    q.discord_id = Some("d2".to_string());
    let r = h.get_messages(q, true, true);
    assert_eq!(r.len(), 1);
    assert_eq!(r[0].message, "m2");
    let mut both = query(None);
    both.discord_id = Some("d2".to_string());
    both.google_id = Some("g".to_string());
    assert!(h.get_messages(both, true, true).is_empty());
    let mut before = query(None);
    before.to = Some(1_000 + 200_000_000_000);
    let r = h.get_messages(before, true, true);
    assert_eq!(r.len(), 2);
    assert_eq!(r[1].message, "m1");
    let mut after = query(None);
    after.from = Some(1_000 + 300_000_000_000);
    let r = h.get_messages(after, true, true);
    assert_eq!(r.len(), 1);
    assert_eq!(r[0].message, "m4");
}

#[test]
fn player_snapshots_and_list() {
    let mut s = Sm64JsServer::with_default_rooms();
    let alice = with_roles(1, &["755200616267120791"]);
    s.connect(alice.clone(), "1.1.1.1".to_string(), 1).ok().unwrap();
    s.connect(with_roles(2, &[]), "2.2.2.2".to_string(), 2).ok().unwrap();
    s.send_join_game(1, JoinGameMsg { level: 1000, name: "Alice".to_string(), use_discord_name: false }, &alice)
        .unwrap();
    let players = s.get_players(Some(5));
    assert_eq!(players.len(), 1);
    assert_eq!(players[0].name, "Alice");
    assert_eq!(players[0].level, 1000);
    assert_eq!(players[0].discord_id.as_deref(), Some("d1"));
    assert!(players[0].chat.as_ref().unwrap().is_empty());
    let ri = s.room_index(1000).unwrap();
    let (n, field) = s.get_player_list_field(ri, "https://x").unwrap();
    assert_eq!(n, 1);
    assert_eq!(field.name, "Mushroom Battlefield");
    assert_eq!(field.value, "\u{1F31F} [Alice](https://x/api/account?account_id=1)\n\n");
    assert!(s.get_player_list_field(s.room_index(16).unwrap(), "https://x").is_none());
    let (fields, author) = s.send_player_list("https://x");
    assert_eq!(fields.len(), 1);
    assert_eq!(author.name, "Players online: 1");
}

#[test]
fn player_list_field_is_truncated() {
    let mut s = Sm64JsServer::with_default_rooms();
    for k in 0..40 {
        let who = with_roles(k, &[]);
        s.connect(who.clone(), "ip".to_string(), k as u32 + 1).ok().unwrap();
        s.send_join_game(k as u32 + 1, JoinGameMsg { level: 5, name: format!("Player{:03}", k), use_discord_name: false }, &who)
            .unwrap();
    }
    let ri = s.room_index(5).unwrap();
    let (n, field) = s.get_player_list_field(ri, "https://example.com").unwrap();
    assert!(n < 40);
    assert!(field.value.len() <= 1024);
    let line = "[Player000](https://example.com/api/account?account_id=0)\n".len();
    assert!(field.value.len() + line + 1 > 1024);
}

#[test]
fn sanction_permissions() {
    let trial = with_roles(2, &["801876964892868659"]);
    assert!(may_sanction(&trial, Sanction::Ban, Some(2 * 86_400)));
    assert!(!may_sanction(&trial, Sanction::Ban, Some(2 * 86_400 + 1)));
    assert!(!may_sanction(&trial, Sanction::Ban, None));
    let moderator = with_roles(1, &["755200616267120791"]);
    assert!(may_sanction(&moderator, Sanction::Mute, None));
}

#[test]
fn chat_log_applies_both_bounds() {
    let h = history_of(5);
    let mut q = query(None);
    q.from = Some(1_000 + 100_000_000_000);
    q.to = Some(1_000 + 400_000_000_000);
    let r = h.get_messages(q, true, true);
    assert_eq!(r.len(), 2);
    assert_eq!(r[0].message, "m2");
    assert_eq!(r[1].message, "m3");
}

#[test]
fn player_list_puts_fuller_rooms_first() {
    let mut s = Sm64JsServer::with_default_rooms();
    let mut id = 1;
    for (level, count) in [(5u32, 1), (16, 2), (9, 2)] {
        for _ in 0..count {
            let who = with_roles(id as i32, &[]);
            s.connect(who.clone(), "ip".to_string(), id).ok().unwrap();
            s.send_join_game(id, JoinGameMsg { level, name: format!("Player{}", id), use_discord_name: false }, &who)
                .unwrap();
            id += 1;
        }
    }
    let (fields, author) = s.send_player_list("https://x");
    let names: Vec<&str> = fields.iter().map(|f| f.name.as_str()).collect();
    assert_eq!(names, vec!["Bob-omb Battlefield", "Castle Grounds", "Cool, Cool Mountain"]);
    assert_eq!(author.name, "Players online: 5");
}
