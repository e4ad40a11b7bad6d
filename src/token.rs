//! API keys of the HTTP interface and the permissions they carry.
use vstd::prelude::*;

verus! {

#[derive(Clone, Copy, Debug, PartialEq, Eq, Structural)]
pub enum PermissionValue {
    Token,
    GetChat,
    GetChatIp,
    BanPlayer,
}

#[derive(Clone, Copy, Debug, PartialEq, Eq, Structural)]
pub enum PermissionLevel {
    Admin,
    Mod,
    User,
}

/// One permission of an API key.
#[derive(Clone, Copy, Debug, PartialEq, Eq, Structural)]
pub struct Permission {
    pub name: PermissionValue,
    pub level: PermissionLevel,
}

/// An API key and its permissions.
pub struct Token {
    pub key: String,
    pub permissions: Vec<Permission>,
}

impl Token {
    /// The first token whose key is `apikey`.
    pub fn find<'a>(tokens: &'a Vec<Token>, apikey: &String) -> (r: Option<&'a Token>)
        ensures
            match r {
                Some(t) => exists|i: int|
                    0 <= i < tokens@.len() && (#[trigger] tokens@[i]) == *t && t.key@ == apikey@
                        && forall|j: int| 0 <= j < i ==> (#[trigger] tokens@[j]).key@ != apikey@,
                None => forall|j: int| 0 <= j < tokens@.len() ==> (#[trigger] tokens@[j]).key@ != apikey@,
            },
    {
        let mut i: usize = 0;
        while i < tokens.len()
            invariant
                i <= tokens@.len(),
                forall|j: int| 0 <= j < i ==> (#[trigger] tokens@[j]).key@ != apikey@,
            decreases tokens@.len() - i,
        {
            if tokens[i].key == *apikey {
                return Some(&tokens[i]);
            }
            i = i + 1;
        }
        None
    }

    /// Whether the token carries permission `name` at any level.
    pub fn allows(&self, name: PermissionValue) -> (r: bool)
        ensures
            r == exists|i: int| 0 <= i < self.permissions@.len() && (#[trigger] self.permissions@[i]).name == name,
    {
        let mut i: usize = 0;
        while i < self.permissions.len()
            invariant
                i <= self.permissions@.len(),
                forall|j: int| 0 <= j < i ==> (#[trigger] self.permissions@[j]).name != name,
            decreases self.permissions@.len() - i,
        {
            if self.permissions[i].name == name {
                return true;
            }
            i = i + 1;
        }
        false
    }
}

} // verus!
