//! The username this node goes by.
use vstd::prelude::*;
use vstd::utf8::encode_utf8;

use crate::text::{law_trim_idempotent, trim, trim_str};
use crate::wire::utf8_len;

verus! {

/// What a requested username becomes: trimmed of white space, refused when
/// nothing is left or when more than 32 bytes are.
pub open spec fn checked_username(requested: Seq<char>) -> Result<Seq<char>, Seq<char>> {
    let name = trim(requested);
    if name.len() == 0 {
        Err("Username cannot be empty."@)
    } else if encode_utf8(name).len() > 32 {
        Err("Username cannot be longer than 32 characters."@)
    } else {
        Ok(name)
    }
}

/// The identity of this node: the username it announces to peers.
#[derive(Debug, Clone)]
pub struct LocalIdentity {
    username: String,
}

impl View for LocalIdentity {
    type V = Seq<char>;

    closed spec fn view(&self) -> Seq<char> {
        self.username@
    }
}

impl LocalIdentity {
    /// An identity for `username` once trimmed; refused with a message when
    /// the name is empty or longer than 32 bytes.
    pub fn new(username: &str) -> (r: Result<Self, String>)
        ensures
            match checked_username(username@) {
                Ok(name) => r matches Ok(id) && id@ == name,
                Err(message) => r matches Err(e) && e@ == message,
            },
    {
        let username = trim_str(username);
        if username.as_str().is_empty() {
            return Err("Username cannot be empty.".to_owned());
        }
        if utf8_len(username.as_str()) > 32 {
            return Err("Username cannot be longer than 32 characters.".to_owned());
        }
        Ok(LocalIdentity { username })
    }

    /// The username.
    pub fn username(&self) -> (name: &str)
        ensures
            name@ == self@,
    {
        self.username.as_str()
    }

    /// Replaces the username as given, without checking it.
    pub fn set_username(&mut self, username: String)
        ensures
            final(self)@ == username@,
    {
        self.username = username;
    }
}


/// An accepted username is accepted again as it is: checking is stable.
pub proof fn law_checked_username_stable(requested: Seq<char>)
    requires
        checked_username(requested) is Ok,
    ensures
        checked_username(checked_username(requested)->Ok_0) == checked_username(requested),
{
    law_trim_idempotent(requested);
}

} // verus!
