//! Keys under which passwords are kept in the system keyring.
use vstd::prelude::*;
use crate::text::{chars_of, decimal, push_decimal, string_of};

verus! {

/// The keyring service under which every password of the viewer is stored.
pub const SERVICE_NAME: &'static str = "ruvnc-viewer";

/// The keyring key of a server login: `host:port`, or `user@host:port` when
/// there is a user name.
pub open spec fn key_text(host: Seq<char>, port: u16, username: Seq<char>) -> Seq<char> {
    let address = host.push(':') + decimal(port as nat);
    if username.len() == 0 {
        address
    } else {
        username.push('@') + address
    }
}

/// The keyring key of a server login: see [`key_text`].
pub fn entry_key(host: &str, port: u16, username: &str) -> (r: String)
    ensures
        r@ == key_text(host@, port, username@),
{
    let mut cs: Vec<char> = Vec::new();
    if !username.is_empty() {
        cs = chars_of(username);
        cs.push('@');
    }
    let ghost prefix = cs@;
    let hs = chars_of(host);
    let mut i: usize = 0;
    while i < hs.len()
        invariant
            i <= hs@.len(),
            hs@ == host@,
            cs@ == prefix + hs@.take(i as int),
        decreases hs@.len() - i,
    {
        cs.push(hs[i]);
        i = i + 1;
        assert(cs@ =~= prefix + hs@.take(i as int));
    }
    assert(hs@.take(hs@.len() as int) =~= hs@);
    cs.push(':');
    push_decimal(&mut cs, port as u64);
    proof {
        if username@.len() == 0 {
            assert(prefix =~= Seq::<char>::empty());
            assert(cs@ =~= key_text(host@, port, username@));
        } else {
            assert(cs@ =~= key_text(host@, port, username@));
        }
    }
    string_of(cs.as_slice())
}

} // verus!
