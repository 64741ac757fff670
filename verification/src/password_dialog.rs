//! The password prompt shown when a server asks for credentials: what it
//! holds, when it may be confirmed, and what it hands back.
use vstd::prelude::*;
use crate::text::{append_chars, chars_of, push_decimal, string_of};

verus! {

/// What the user entered in the password prompt.
pub struct PasswordResult {
    pub username: String,
    pub password: String,
    pub host: String,
    pub port: u16,
    pub save: bool,
}

/// The password prompt for one server.
pub struct PasswordDialog {
    pub host: String,
    pub port: u16,
    pub username: String,
    pub password: String,
    pub save_password: bool,
    pub need_username: bool,
    pub result: Option<PasswordResult>,
    pub cancelled: bool,
}

impl PasswordDialog {
    /// A prompt for `host:port` with the user name filled in, an empty
    /// password, saving switched on, and nothing decided yet.
    pub fn new(host: String, port: u16, username: String, need_username: bool) -> (r: Self)
        ensures
            r.host == host,
            r.port == port,
            r.username == username,
            r.password@.len() == 0,
            r.save_password,
            r.need_username == need_username,
            r.result is None,
            !r.cancelled,
    {
        PasswordDialog {
            host,
            port,
            username,
            password: String::new(),
            save_password: true,
            need_username,
            result: None,
            cancelled: false,
        }
    }

    /// Takes what the user confirmed, if anything.
    pub fn take_result(&mut self) -> (r: Option<PasswordResult>)
        ensures
            r == old(self).result,
            final(self).result is None,
            final(self).cancelled == old(self).cancelled,
            *final(self) == (PasswordDialog { result: final(self).result, ..*old(self) }),
    {
        self.result.take()
    }

    /// Whether the user dismissed the prompt.
    pub fn is_cancelled(&self) -> (r: bool)
        ensures
            r == self.cancelled,
    {
        self.cancelled
    }

    /// Whether "Connect" is enabled: only once a password was typed.
    pub fn can_connect(&self) -> (r: bool)
        ensures
            r == (self.password@.len() > 0),
    {
        !self.password.as_str().is_empty()
    }

    /// "Connect" (or Enter): with a password typed, the prompt's contents
    /// become its result; without one nothing happens.
    pub fn confirm(&mut self)
        ensures
            old(self).password@.len() > 0 ==> (final(self).result matches Some(res) && {
                &&& res.username@ == old(self).username@
                &&& res.password@ == old(self).password@
                &&& res.host@ == old(self).host@
                &&& res.port == old(self).port
                &&& res.save == old(self).save_password
            }),
            old(self).password@.len() == 0 ==> final(self).result == old(self).result,
            final(self).host == old(self).host,
            final(self).port == old(self).port,
            final(self).username == old(self).username,
            final(self).password == old(self).password,
            final(self).cancelled == old(self).cancelled,
            *final(self) == (PasswordDialog { result: final(self).result, ..*old(self) }),
    {
        if !self.password.as_str().is_empty() {
            self.result = Some(
                PasswordResult {
                    username: self.username.clone(),
                    password: self.password.clone(),
                    host: self.host.clone(),
                    port: self.port,
                    save: self.save_password,
                },
            );
        }
    }

    /// "Cancel": the prompt is dismissed.
    pub fn cancel(&mut self)
        ensures
            final(self).cancelled,
            final(self).result == old(self).result,
            *final(self) == (PasswordDialog { cancelled: final(self).cancelled, ..*old(self) }),
    {
        self.cancelled = true;
    }

    /// The prompt's title: `Password for <host>:<port>`.
    pub fn title(&self) -> (r: String)
        ensures
            r@ == "Password for "@ + self.host@ + ":"@ + crate::text::decimal(self.port as nat),
    {
        let mut cs = chars_of("Password for ");
        append_chars(&mut cs, self.host.as_str());
        let ghost before = cs@;
        cs.push(':');
        push_decimal(&mut cs, self.port as u64);
        proof {
            reveal_strlit(":");
            assert(cs@ =~= before + ":"@ + crate::text::decimal(self.port as nat));
        }
        string_of(cs.as_slice())
    }
}

} // verus!
