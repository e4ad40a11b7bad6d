//! What the moderation side reads: the player list posted to the moderators'
//! channel, player snapshots, access to the chat log and to account data, and
//! API keys.
use crate::auth::{AuthInfo, Permission};
use crate::chat::{push_char, byte_len};
use vstd::prelude::*;
use vstd::string::{StrSliceExecFns, StringExecFns};
use vstd::utf8::encode_utf8;

verus! {

/// Largest text of one embed field, in bytes.
pub const FIELD_LIMIT: usize = 1024;

/// Largest text of a whole embed, in bytes.
pub const EMBED_LIMIT: usize = 6000;

/// Most fields an embed may have.
pub const FIELD_COUNT_LIMIT: usize = 25;

/// Bytes an embed uses before its fields.
pub const EMBED_BASE: usize = 100;

/// One field of a rich embed.
pub struct DiscordRichEmbedField {
    pub name: String,
    pub value: String,
}

pub struct DiscordRichEmbedAuthor {
    pub name: String,
    pub url: Option<String>,
    pub icon_url: Option<String>,
}

pub struct DiscordRichEmbedFooter {
    pub text: String,
}

/// The digits of `n`, most significant first.
pub open spec fn digits(n: nat) -> Seq<char>
    decreases n,
{
    if n < 10 {
        seq![digit_char(n)]
    } else {
        digits(n / 10).push(digit_char(n % 10))
    }
}

pub open spec fn digit_char(d: nat) -> char {
    if d == 0 { '0' } else if d == 1 { '1' } else if d == 2 { '2' } else if d == 3 { '3' } else if d == 4 { '4' }
    else if d == 5 { '5' } else if d == 6 { '6' } else if d == 7 { '7' } else if d == 8 { '8' } else { '9' }
}

/// The decimal form of `n`.
pub open spec fn decimal(n: int) -> Seq<char> {
    if n < 0 {
        seq!['-'] + digits((-n) as nat)
    } else {
        digits(n as nat)
    }
}

fn digit(d: u64) -> (c: char)
    requires
        d < 10,
    ensures
        c == digit_char(d as nat),
{
    if d == 0 { '0' } else if d == 1 { '1' } else if d == 2 { '2' } else if d == 3 { '3' } else if d == 4 { '4' }
    else if d == 5 { '5' } else if d == 6 { '6' } else if d == 7 { '7' } else if d == 8 { '8' } else { '9' }
}

fn push_digits(out: &mut String, n: u64)
    ensures
        final(out)@ == old(out)@ + digits(n as nat),
    decreases n,
{
    if n < 10 {
        push_char(out, digit(n));
    } else {
        push_digits(out, n / 10);
        push_char(out, digit(n % 10));
    }
}

/// The decimal form of `n`.
pub fn digits_string(n: u64) -> (r: String)
    ensures
        r@ == digits(n as nat),
{
    let mut out = String::new();
    push_digits(&mut out, n);
    assert(out@ == Seq::<char>::empty() + digits(n as nat));
    out
}

/// The decimal form of `n`.
pub fn decimal_string(n: i64) -> (r: String)
    ensures
        r@ == decimal(n as int),
{
    let mut out = String::new();
    if n < 0 {
        push_char(&mut out, '-');
        let m: u64 = if n == i64::MIN {
            9_223_372_036_854_775_808u64
        } else {
            (-n) as u64
        };
        push_digits(&mut out, m);
        assert(out@ == seq!['-'] + digits((-n) as nat));
    } else {
        push_digits(&mut out, n as u64);
        assert(out@ == Seq::<char>::empty() + digits(n as nat));
    }
    out
}

/// One line of the player list: the name, linked to the account page.
pub open spec fn player_line(admin: bool, name: Seq<char>, base_url: Seq<char>, account_id: i32) -> Seq<char> {
    (if admin { "\u{1F31F} "@ } else { Seq::empty() }) + "["@ + name + "]("@ + base_url
        + "/api/account?account_id="@ + decimal(account_id as int) + ")\n"@
}

/// One line of the player list.
pub fn player_line_text(admin: bool, name: &str, base_url: &str, account_id: i32) -> (r: String)
    ensures
        r@ == player_line(admin, name@, base_url@, account_id),
{
    let mut out = String::new();
    if admin {
        out.append("\u{1F31F} ");
    }
    out.append("[");
    out.append(name);
    out.append("](");
    out.append(base_url);
    out.append("/api/account?account_id=");
    let id = decimal_string(account_id as i64);
    out.append(id.as_str());
    out.append(")\n");
    assert(out@ == (if admin { "\u{1F31F} "@ } else { Seq::empty() }) + "["@ + name@ + "]("@ + base_url@
        + "/api/account?account_id="@ + decimal(account_id as int) + ")\n"@);
    out
}

/// The number of lines that fit in a field: lines are taken in order while
/// the field, with its closing newline, stays within the limit.
pub open spec fn lines_that_fit(lines: Seq<Seq<char>>, used: nat) -> nat
    decreases lines.len(),
{
    if lines.len() == 0 {
        0
    } else if used + encode_utf8(lines[0]).len() + 1 > FIELD_LIMIT {
        0
    } else {
        1 + lines_that_fit(lines.drop_first(), used + encode_utf8(lines[0]).len())
    }
}

/// Whether `auth` may read the chat log; with `SeeIp`, addresses are shown.
pub enum GetChatError {
    Unauthorized,
}

/// Access to the chat log: who may read it, and whether addresses are shown.
pub fn chat_log_access(auth: &AuthInfo) -> (r: Result<bool, GetChatError>)
    ensures
        r is Ok <==> auth.grants(Permission::ReadChatLog),
        r matches Ok(with_ip) ==> with_ip == auth.grants(Permission::SeeIp),
{
    if auth.has_permission(&Permission::ReadChatLog) {
        Ok(auth.has_permission(&Permission::SeeIp))
    } else {
        Err(GetChatError::Unauthorized)
    }
}

/// A request for an account's data.
pub struct GetAccount {
    pub account_id: i32,
}

pub enum GetAccountError {
    Unauthorized,
    NotFound,
}

/// What a reader of account data sees.
#[derive(Clone, Copy, Debug, PartialEq, Eq, Structural)]
pub struct AccountAccess {
    /// Whether the linked platform accounts are included.
    pub extended: bool,
    /// Whether the last address is included.
    pub see_ip: bool,
}

/// Access to account data: `GetAccount` is needed; `GetAccountExt` adds the
/// linked accounts and `SeeIp` the last address.
pub fn account_access(auth: &AuthInfo) -> (r: Result<AccountAccess, GetAccountError>)
    ensures
        r is Ok <==> auth.grants(Permission::GetAccount),
        r matches Ok(a) ==> a.extended == auth.grants(Permission::GetAccountExt) && a.see_ip
            == auth.grants(Permission::SeeIp),
{
    if auth.has_permission(&Permission::GetAccount) {
        Ok(AccountAccess {
            extended: auth.has_permission(&Permission::GetAccountExt),
            see_ip: auth.has_permission(&Permission::SeeIp),
        })
    } else {
        Err(GetAccountError::Unauthorized)
    }
}

/// An API key taken from an `Authorization` header.
pub struct AuthReq {
    pub apikey: String,
}

/// The header value is `APIKEY` and a key, separated by one space; the key
/// runs to the next space or to the end.
pub open spec fn apikey_of(h: Seq<char>, key: Seq<char>) -> bool {
    &&& h.len() >= 7
    &&& h.subrange(0, 7) == "APIKEY "@
    &&& exists|end: int|
        #![trigger h.subrange(7, end)]
        7 <= end <= h.len() && key == h.subrange(7, end) && (end == h.len() || h[end] == ' ')
            && forall|k: int| 7 <= k < end ==> h[k] != ' '
}

impl AuthReq {
    /// The API key of an `Authorization` header value, if it names one.
    pub fn from_authorization(h: &str) -> (r: Option<AuthReq>)
        ensures
            r is Some <==> h@.len() >= 7 && h@.subrange(0, 7) == "APIKEY "@,
            r matches Some(a) ==> apikey_of(h@, a.apikey@),
    {
        let n = h.unicode_len();
        if n < 7 {
            return None;
        }
        let head = h.substring_char(0, 7);
        if !(String::from_str(head) == String::from_str("APIKEY ")) {
            return None;
        }
        let mut end: usize = 7;
        while end < n && h.get_char(end) != ' '
            invariant
                n == h@.len(),
                7 <= end <= n,
                forall|k: int| 7 <= k < end ==> h@[k] != ' ',
            decreases n - end,
        {
            end = end + 1;
        }
        let key = h.substring_char(7, end);
        assert(key@ == h@.subrange(7, end as int));
        Some(AuthReq { apikey: String::from_str(key) })
    }
}

/// `s` with `*` and `_` escaped by a backslash, so that the chat text shows
/// as written in the moderators' channel.
pub open spec fn escape_markdown(s: Seq<char>) -> Seq<char>
    decreases s.len(),
{
    if s.len() == 0 {
        s
    } else {
        let rest = escape_markdown(s.drop_last());
        if s.last() == '*' || s.last() == '_' {
            rest.push('\\').push(s.last())
        } else {
            rest.push(s.last())
        }
    }
}

/// Escapes `*` and `_` by a backslash.
pub fn escape_markdown_text(s: &str) -> (r: String)
    ensures
        r@ == escape_markdown(s@),
{
    let mut out = String::new();
    for c in it: s.chars()
        invariant
            it.seq() == s@,
            out@ == escape_markdown(s@.take(it.index() as int)),
    {
        proof {
            assert(s@.take(it.index() as int + 1).drop_last() == s@.take(it.index() as int));
        }
        if c == '*' || c == '_' {
            push_char(&mut out, '\\');
        }
        push_char(&mut out, c);
    }
    proof {
        assert(s@.take(s@.len() as int) == s@);
    }
    out
}

/// The picture shown for an account: its Discord avatar, Discord's default
/// picture for an account without one, or Google's logo.
pub open spec fn avatar_url(discord: Option<(Seq<char>, Option<Seq<char>>)>) -> Seq<char> {
    match discord {
        Some((id, Some(avatar))) => "https://cdn.discordapp.com/avatars/"@ + id + "/"@ + avatar
            + ".png?size=64"@,
        Some((_, None)) => "https://discord.com/assets/2c21aeda16de354ba5334551a883b481.png"@,
        None => "https://developers.google.com/identity/images/g-logo.png"@,
    }
}

/// The picture shown for an account, from its Discord id and avatar.
pub fn avatar_url_text(discord: Option<(&str, Option<&str>)>) -> (r: String)
    ensures
        r@ == avatar_url(match discord {
            Some((id, avatar)) => Some((id@, match avatar {
                Some(a) => Some(a@),
                None => None,
            })),
            None => None,
        }),
{
    match discord {
        Some((id, Some(avatar))) => {
            let mut out = String::from_str("https://cdn.discordapp.com/avatars/");
            out.append(id);
            out.append("/");
            out.append(avatar);
            out.append(".png?size=64");
            out
        },
        Some((_, None)) => String::from_str("https://discord.com/assets/2c21aeda16de354ba5334551a883b481.png"),
        None => String::from_str("https://developers.google.com/identity/images/g-logo.png"),
    }
}

/// A chat message as posted to the moderators' channel.
pub struct ChatLogPost {
    pub description: String,
    pub author: DiscordRichEmbedAuthor,
    pub footer: DiscordRichEmbedFooter,
}

/// The post for an accepted chat message: the text with markdown escaped,
/// the player linked to the account page with their picture, and the account
/// and level in the footer. The text `1337` is not posted.
pub fn chat_log_post(
    message: &str,
    player_name: String,
    level_name: &str,
    account_id: i32,
    discord: Option<(&str, Option<&str>)>,
    base_url: &str,
) -> (r: Option<ChatLogPost>)
    ensures
        r is None <==> message@ == "1337"@,
        r matches Some(p) ==> {
            &&& p.description@ == escape_markdown(message@)
            &&& p.author.name == player_name
            &&& p.author.url is Some && p.author.url->0@ == base_url@ + "/api/account?account_id="@ + decimal(account_id as int)
            &&& p.author.icon_url is Some
            &&& p.footer.text@ == "#"@ + decimal(account_id as int) + " - "@ + level_name@
        },
{
    if String::from_str(message) == String::from_str("1337") {
        return None;
    }
    let id = decimal_string(account_id as i64);
    let mut url = String::from_str(base_url);
    url.append("/api/account?account_id=");
    url.append(id.as_str());
    let mut footer = String::from_str("#");
    footer.append(id.as_str());
    footer.append(" - ");
    footer.append(level_name);
    Some(ChatLogPost {
        description: escape_markdown_text(message),
        author: DiscordRichEmbedAuthor { name: player_name, url: Some(url), icon_url: Some(avatar_url_text(discord)) },
        footer: DiscordRichEmbedFooter { text: footer },
    })
}

/// A moderation action on an account.
#[derive(Clone, Copy, Debug, PartialEq, Eq, Structural)]
pub enum Sanction {
    Ban,
    Mute,
}

/// The permission a sanction needs: the permanent one without an end, else
/// the temporary one for its length in seconds.
pub open spec fn sanction_permission(kind: Sanction, expires_in: Option<i64>) -> Permission {
    match (kind, expires_in) {
        (Sanction::Ban, Some(d)) => Permission::TempBanAccount(d),
        (Sanction::Ban, None) => Permission::PermBanAccount,
        (Sanction::Mute, Some(d)) => Permission::TempMuteAccount(d),
        (Sanction::Mute, None) => Permission::PermMuteAccount,
    }
}

/// Whether `auth` may impose a sanction of the given length.
pub fn may_sanction(auth: &AuthInfo, kind: Sanction, expires_in: Option<i64>) -> (r: bool)
    ensures
        r == auth.grants(sanction_permission(kind, expires_in)),
{
    let p = match (kind, expires_in) {
        (Sanction::Ban, Some(d)) => Permission::TempBanAccount(d),
        (Sanction::Ban, None) => Permission::PermBanAccount,
        (Sanction::Mute, Some(d)) => Permission::TempMuteAccount(d),
        (Sanction::Mute, None) => Permission::PermMuteAccount,
    };
    auth.has_permission(&p)
}

} // verus!
