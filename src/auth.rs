//! Who a connection belongs to, and what the roles of that identity allow.
use vstd::prelude::*;
use vstd::string::StringExecFns;

verus! {

/// Seconds in a week.
pub const WEEK: i64 = 604_800;

/// Seconds in a day.
pub const DAY: i64 = 86_400;

/// Something a moderator may do; temporary bans and mutes carry their length
/// in seconds.
#[derive(Clone, Copy, Debug, PartialEq, Eq, Structural)]
pub enum Permission {
    GetAccount,
    GetAccountExt,
    GetPlayerList,
    PermBanAccount,
    PermMuteAccount,
    ReadChatLog,
    SeeIp,
    SendAnnouncement,
    TempBanAccount(i64),
    TempMuteAccount(i64),
}

/// The Discord side of an identity.
#[derive(Clone, Debug)]
pub struct DiscordIdentity {
    pub id: String,
    pub username: String,
    pub discriminator: String,
    pub avatar: Option<String>,
    pub roles: Vec<String>,
}

/// An authenticated identity: the account and the platform accounts linked to it.
#[derive(Clone, Debug)]
pub struct AuthInfo {
    pub account_id: i32,
    pub discord: Option<DiscordIdentity>,
    pub google_id: Option<String>,
}

pub open spec fn moderator_role() -> Seq<char> {
    "755200616267120791"@
}

pub open spec fn chat_moderator_role() -> Seq<char> {
    "780937094473318420"@
}

pub open spec fn trial_moderator_role() -> Seq<char> {
    "801876964892868659"@
}

/// Whether `role` grants `p`.
pub open spec fn role_grants(role: Seq<char>, p: Permission) -> bool {
    if role == moderator_role() {
        match p {
            Permission::TempBanAccount(d) => d <= 1000 * WEEK,
            Permission::TempMuteAccount(d) => d <= 1000 * WEEK,
            _ => true,
        }
    } else if role == chat_moderator_role() {
        match p {
            Permission::GetAccountExt | Permission::SeeIp => false,
            Permission::TempBanAccount(d) => d <= 1000 * WEEK,
            Permission::TempMuteAccount(d) => d <= 1000 * WEEK,
            _ => true,
        }
    } else if role == trial_moderator_role() {
        match p {
            Permission::GetAccount | Permission::GetPlayerList | Permission::ReadChatLog => true,
            Permission::TempBanAccount(d) => d <= 2 * DAY,
            Permission::TempMuteAccount(d) => d <= 7 * DAY,
            _ => false,
        }
    } else {
        false
    }
}

/// Whether `role` makes its holder an in-game admin.
pub open spec fn admin_role(role: Seq<char>) -> bool {
    role == moderator_role() || role == chat_moderator_role()
}

fn same_text(a: &str, b: &str) -> (r: bool)
    ensures
        r == (a@ == b@),
{
    String::from_str(a) == String::from_str(b)
}

impl Permission {
    /// Whether `role` grants this permission.
    pub fn role_has_permission(&self, role: &str) -> (r: bool)
        ensures
            r == role_grants(role@, *self),
    {
        if same_text(role, "755200616267120791") {
            match *self {
                Permission::TempBanAccount(d) => d <= 1000 * WEEK,
                Permission::TempMuteAccount(d) => d <= 1000 * WEEK,
                _ => true,
            }
        } else if same_text(role, "780937094473318420") {
            match *self {
                Permission::GetAccountExt | Permission::SeeIp => false,
                Permission::TempBanAccount(d) => d <= 1000 * WEEK,
                Permission::TempMuteAccount(d) => d <= 1000 * WEEK,
                _ => true,
            }
        } else if same_text(role, "801876964892868659") {
            match *self {
                Permission::GetAccount | Permission::GetPlayerList | Permission::ReadChatLog => true,
                Permission::TempBanAccount(d) => d <= 2 * DAY,
                Permission::TempMuteAccount(d) => d <= 7 * DAY,
                _ => false,
            }
        } else {
            false
        }
    }
}

impl AuthInfo {
    pub open spec fn roles(&self) -> Seq<String> {
        match self.discord {
            Some(d) => d.roles@,
            None => Seq::empty(),
        }
    }

    /// Whether some role of the linked Discord account grants `p`.
    pub open spec fn grants(&self, p: Permission) -> bool {
        exists|i: int| 0 <= i < self.roles().len() && role_grants(#[trigger] self.roles()[i]@, p)
    }

    /// Whether some role of the linked Discord account is an admin role.
    pub open spec fn is_admin(&self) -> bool {
        exists|i: int| 0 <= i < self.roles().len() && admin_role(#[trigger] self.roles()[i]@)
    }

    pub fn get_account_id(&self) -> (r: i32)
        ensures
            r == self.account_id,
    {
        self.account_id
    }

    pub fn get_discord_id(&self) -> (r: Option<String>)
        ensures
            r == (match self.discord {
                Some(d) => Some(d.id),
                None => None,
            }),
    {
        match &self.discord {
            Some(d) => Some(d.id.clone()),
            None => None,
        }
    }

    pub fn get_google_id(&self) -> (r: Option<String>)
        ensures
            r == self.google_id,
    {
        match &self.google_id {
            Some(g) => Some(g.clone()),
            None => None,
        }
    }

    /// The Discord name as `username#discriminator`.
    pub fn get_discord_username(&self) -> (r: Option<String>)
        ensures
            r is Some <==> self.discord is Some,
            r is Some ==> r->0@ == self.discord->0.username@ + "#"@
                + self.discord->0.discriminator@,
    {
        match &self.discord {
            Some(d) => {
                let mut name = d.username.clone();
                name.append("#");
                name.append(d.discriminator.as_str());
                Some(name)
            },
            None => None,
        }
    }

    pub fn has_permission(&self, permission: &Permission) -> (r: bool)
        ensures
            r == self.grants(*permission),
    {
        match &self.discord {
            Some(d) => {
                let mut i: usize = 0;
                while i < d.roles.len()
                    invariant
                        self.discord == Some(*d),
                        i <= d.roles.len(),
                        forall|j: int| 0 <= j < i ==> !role_grants(#[trigger] d.roles@[j]@, *permission),
                    decreases d.roles.len() - i,
                {
                    if permission.role_has_permission(d.roles[i].as_str()) {
                        assert(role_grants(self.roles()[i as int]@, *permission));
                        return true;
                    }
                    i = i + 1;
                }
                false
            },
            None => false,
        }
    }

    pub fn is_in_game_admin(&self) -> (r: bool)
        ensures
            r == self.is_admin(),
    {
        match &self.discord {
            Some(d) => {
                let mut i: usize = 0;
                while i < d.roles.len()
                    invariant
                        self.discord == Some(*d),
                        i <= d.roles.len(),
                        forall|j: int| 0 <= j < i ==> !admin_role(#[trigger] d.roles@[j]@),
                    decreases d.roles.len() - i,
                {
                    let role = d.roles[i].as_str();
                    if same_text(role, "755200616267120791") || same_text(role, "780937094473318420") {
                        assert(admin_role(self.roles()[i as int]@));
                        return true;
                    }
                    i = i + 1;
                }
                false
            },
            None => false,
        }
    }
}

} // verus!
