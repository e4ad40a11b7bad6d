use sm64js_core::auth::{AuthInfo, DiscordIdentity, Permission};
use sm64js_core::chat::{
    contains_server, handle_command, is_name_valid, is_screaming, letter_counts, sanitize_chat,
    split_command,
};
use sm64js_core::history::{AccountInfo, ChatError, ChatHistory, ChatResult};

fn moderator() -> AuthInfo {
    AuthInfo {
        account_id: 1,
        discord: Some(DiscordIdentity {
            id: "99".to_string(),
            username: "mod".to_string(),
            discriminator: "0001".to_string(),
            avatar: None,
            roles: vec!["755200616267120791".to_string()],
        }),
        google_id: None,
    }
}

fn plain_user() -> AuthInfo {
    AuthInfo { account_id: 2, discord: None, google_id: Some("g".to_string()) }
}

fn account(id: i32) -> AccountInfo {
    AccountInfo { account_id: id, discord_id: None, google_id: None }
}

#[test]
fn sanitize_drops_disallowed_characters() {
    assert_eq!(sanitize_chat("a\tb<c>"), "ab<c>");
    assert_eq!(sanitize_chat("héllo 😂"), "hllo 😂");
    assert_eq!(sanitize_chat(""), "");
}

#[test]
fn sanitize_is_idempotent() {
    for m in ["héllo wörld!", "tab\there", "ok 🔥 fine", "ÄÖÜ"] {
        let once = sanitize_chat(m);
        assert_eq!(sanitize_chat(&once), once);
    }
}

#[test]
fn name_length_bounds() {
    assert!(is_name_valid("abc"));
    assert!(is_name_valid("abcdefghijklmn"));
    assert!(!is_name_valid("ab"));
    assert!(!is_name_valid("abcdefghijklmno"));
}

#[test]
fn name_with_server_token_rejected() {
    assert!(!is_name_valid("xSeRvErx"));
    assert!(contains_server("myserver"));
    assert!(!contains_server("serve"));
    assert!(!is_name_valid("bad\tname"));
}

#[test]
fn screaming_detection() {
    assert!(is_screaming("HELLO WORLD"));
    assert!(!is_screaming("HELLO"));
    assert!(!is_screaming("Hello world"));
    assert!(!is_screaming("123456"));
    assert_eq!(letter_counts("AbC d"), (2, 4));
}

#[test]
fn command_split_at_first_space() {
    let (cmd, arg) = split_command("/ANNOUNCEMENT hello world").unwrap();
    assert_eq!(cmd, "ANNOUNCEMENT");
    assert_eq!(arg, "hello world");
    assert!(split_command("/nospace").is_none());
}

#[test]
fn announcement_needs_permission() {
    let a = handle_command("/announcement hello world", &moderator()).unwrap();
    assert_eq!(a.message, "hello world");
    assert_eq!(a.timer, 300);
    assert!(handle_command("/ANNOUNCEMENT hello world", &plain_user()).is_none());
    assert!(handle_command("/UNKNOWN hello", &moderator()).is_none());
}

#[test]
fn permissions_by_role() {
    let m = moderator();
    assert!(m.has_permission(&Permission::SendAnnouncement));
    assert!(m.has_permission(&Permission::TempBanAccount(3600)));
    assert!(m.is_in_game_admin());
    assert!(!plain_user().has_permission(&Permission::GetAccount));
    assert!(Permission::TempMuteAccount(7 * 86_400).role_has_permission("801876964892868659"));
    assert!(!Permission::TempMuteAccount(7 * 86_400 + 1).role_has_permission("801876964892868659"));
    assert_eq!(m.get_discord_username().unwrap(), "mod#0001");
}

#[test]
fn fourth_message_in_two_seconds_is_spam() {
    let mut h = ChatHistory::new();
    let t0: i64 = 1_700_000_000_000_000_000;
    for k in 0..3 {
        let r = h.add_message_at("hi", account(5), "p".to_string(), "1.2.3.4".to_string(), t0 + k * 500_000_000);
        assert!(matches!(r, ChatResult::Accepted((ref t, false)) if t == "hi"));
    }
    let r = h.add_message_at("hi", account(5), "p".to_string(), "1.2.3.4".to_string(), t0 + 1_500_000_000);
    assert!(matches!(r, ChatResult::Rejected(ChatError::Spam)));
    assert_eq!(h.len(), 4);
    assert!(h.get(3).unwrap().is_spam);
    assert!(!h.get(2).unwrap().is_spam);
}

#[test]
fn other_accounts_do_not_count_as_spam() {
    let mut h = ChatHistory::new();
    let t0: i64 = 1_000_000_000_000;
    for k in 0..3 {
        h.add_message_at("hi", account(k), "p".to_string(), "ip".to_string(), t0 + k as i64);
    }
    let r = h.add_message_at("hi", account(9), "p".to_string(), "ip".to_string(), t0 + 10);
    assert!(matches!(r, ChatResult::Accepted(_)));
}

#[test]
fn thirtieth_message_in_a_minute_is_excessive_spam() {
    let mut h = ChatHistory::new();
    let t0: i64 = 2_000_000_000_000;
    for k in 0..29 {
        let r = h.add_message_at("hello there", account(8), "p".to_string(), "ip".to_string(), t0 + k * 2_000_000_000);
        assert!(!matches!(r, ChatResult::Rejected(ChatError::ExcessiveSpam)));
    }
    let r = h.add_message_at("hello there", account(8), "p".to_string(), "ip".to_string(), t0 + 58_000_000_000);
    assert!(matches!(r, ChatResult::Rejected(ChatError::ExcessiveSpam)));
    assert!(h.get(29).unwrap().is_excessive_spam);
}

#[test]
fn screaming_message_is_rejected_but_stored() {
    let mut h = ChatHistory::new();
    let r = h.add_message_at("STOP THAT NOW", account(3), "p".to_string(), "ip".to_string(), 10);
    assert!(matches!(r, ChatResult::Rejected(ChatError::Screaming)));
    assert!(h.get(0).unwrap().is_screaming);
    assert_eq!(h.get(0).unwrap().message, "STOP THAT NOW");
}

#[test]
fn escaped_message_is_flagged() {
    let mut h = ChatHistory::new();
    let r = h.add_message_at("caf\u{e9}", account(3), "p".to_string(), "ip".to_string(), 10);
    assert!(matches!(r, ChatResult::Accepted((ref t, false)) if t == "caf"));
    assert!(h.get(0).unwrap().is_escaped);
}

#[test]
fn history_keys_increase_when_clock_repeats() {
    let mut h = ChatHistory::new();
    h.add_message_at("one", account(1), "p".to_string(), "ip".to_string(), 100);
    h.add_message_at("two", account(2), "p".to_string(), "ip".to_string(), 100);
    assert_eq!(h.get(0).unwrap().timestamp, 100);
    assert_eq!(h.get(1).unwrap().timestamp, 101);
}
